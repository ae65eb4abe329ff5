use peal::{database, Sequence};

#[test]
fn embedded_data_parses() {
    let db = database();
    assert!(!db.terminals.is_empty());
    assert!(!db.sequences.is_empty());
}

/// Guards the split between the closed enum and the table: adding a variant without
/// describing it, or vice versa, fails here.
#[test]
fn every_dialect_has_a_capability() {
    let db = database();
    for sequence in Sequence::ALL {
        assert!(
            db.sequences.iter().any(|(s, _)| *s == sequence),
            "the table describes no capability for {sequence:?}"
        );
    }
    assert_eq!(
        db.sequences.len(),
        Sequence::ALL.len(),
        "the table describes a dialect the enum does not list"
    );
}

#[test]
fn accepted_dialects_are_described() {
    let db = database();
    for terminal in &db.terminals {
        for sequence in &terminal.accepts {
            assert!(
                db.sequences.iter().any(|(s, _)| s == sequence),
                "{}: accepts {sequence:?} with no capability recorded",
                terminal.id
            );
        }
    }
}

#[test]
fn terminal_ids_are_unique() {
    let db = database();
    let mut seen = std::collections::BTreeSet::new();
    for terminal in &db.terminals {
        assert!(
            seen.insert(&terminal.id),
            "duplicate terminal id: {}",
            terminal.id
        );
    }
}

/// A terminal that answers neither XTVERSION nor anything in the environment could never
/// be identified, so an entry like that is a mistake in the data.
///
/// A marker variable counts as identifying it: Windows Terminal answers no XTVERSION and
/// sets neither TERM_PROGRAM nor a TERM of its own, and is found by `WT_SESSION` alone.
#[test]
fn every_terminal_is_identifiable() {
    let db = database();
    for terminal in &db.terminals {
        assert!(
            !terminal.xtversion.is_empty()
                || !terminal.term_program.is_empty()
                || !terminal.term.is_empty()
                || !terminal.env.is_empty(),
            "{}: no way to identify this terminal",
            terminal.id
        );
    }
}

#[test]
fn osc9_carries_no_title() {
    let db = database();
    assert!(!db.capability(Sequence::Osc9).title);
    assert!(db.capability(Sequence::Osc777).title);
}

#[test]
fn looks_up_a_terminal_by_id() {
    let db = database();
    assert_eq!(db.terminal("kitty").map(|t| t.xtversion.as_str()), Some("kitty"));
    assert_eq!(db.terminal_index("iterm2"), Some(2));
    assert!(db.terminal("nonesuch").is_none());
}

#[test]
fn names_and_keys_each_dialect() {
    assert_eq!(Sequence::Osc9.name(), "OSC 9");
    assert_eq!(Sequence::Osc777.name(), "OSC 777");
    assert_eq!(Sequence::Osc99.name(), "OSC 99");
    assert_eq!(Sequence::Osc99.key(), "osc99");
}
