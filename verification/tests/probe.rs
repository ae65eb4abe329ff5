use peal::probe::{
    accepted_from, refusal, trial,
    against_the_table, classify_answer, dialect_body, entry, identification_note,
    identifying_term, interpret_answer, intro, list, measured_identity, nothing_appeared,
    probe_report, question, recorded_environment, richest_first, Measurement,
};
use peal::detect::{Evidence, Resolution};
use peal::{database, Sequence};

fn measured(accepts: Vec<Sequence>) -> Measurement {
    Measurement {
        xtversion: Some("ghostty".to_owned()),
        version: Some("1.3.1".to_owned()),
        term_program: Some("ghostty".to_owned()),
        term: Some("xterm-ghostty".to_owned()),
        accepts,
        os: "macos",
        through_tmux: false,
    }
}

#[test]
fn records_which_system_it_was_measured_on() {
    assert!(entry(&measured(vec![])).starts_with("# Measured on macos\n"));
}

/// Two entries for one terminal that disagree are worth telling apart, and whether
/// tmux was in the way is the first thing to check.
#[test]
fn records_that_tmux_was_in_the_way() {
    let through = Measurement {
        through_tmux: true,
        ..measured(vec![Sequence::Osc9])
    };
    assert!(entry(&through).starts_with("# Measured on macos, through tmux\n"));
}

/// The ids in the table were derived this way; a probe of one of those terminals has
/// to arrive at the same string or the comparison cannot find it.
#[test]
fn derives_the_ids_the_table_already_uses() {
    let apple = Measurement {
        xtversion: None,
        term_program: Some("Apple_Terminal".to_owned()),
        ..measured(vec![])
    };
    assert_eq!(apple.id(), "apple-terminal");
    assert_eq!(measured(vec![]).id(), "ghostty");
}

#[test]
fn confirms_a_measurement_that_matches_the_table() {
    let report = against_the_table(&measured(vec![Sequence::Osc777, Sequence::Osc9]));
    assert!(report.contains("agrees with it"), "{report}");
}

/// A terminal that changed between versions is exactly what probe exists to catch,
/// so the difference has to be shown rather than silently overwritten.
#[test]
fn shows_the_difference_when_it_does_not_match() {
    let report = against_the_table(&measured(vec![Sequence::Osc9]));
    assert!(report.contains("disagrees"), "{report}");
    assert!(report.contains("OSC 777, OSC 9"), "{report}");
    assert!(report.contains("OSC 9\n"), "{report}");
}

#[test]
fn says_when_the_terminal_is_new_to_the_table() {
    let unknown = Measurement {
        xtversion: Some("Nonesuch".to_owned()),
        ..measured(vec![Sequence::Osc9])
    };
    let report = against_the_table(&unknown);
    assert!(report.contains("not in the table yet"), "{report}");
}

/// Silence is ambiguous, and the ambiguity is the whole content of the warning.
#[test]
fn warns_that_silence_may_be_a_permission_setting() {
    let warning = nothing_appeared("macos");
    assert!(warning.contains("not permitted"), "{warning}");
    assert!(warning.contains("Terminal.app"), "{warning}");
    assert!(warning.contains("System Settings > Notifications"), "{warning}");
    let elsewhere = nothing_appeared("linux");
    assert!(elsewhere.contains("desktop environment"), "{elsewhere}");
}

/// The entries for iTerm2 and Terminal.app have an empty `term` for this reason: a
/// probe that recorded xterm-256color would make every terminal claiming it look
/// like the one being measured.
#[test]
fn leaves_a_generic_term_out_of_the_entry() {
    assert_eq!(identifying_term(Some("xterm-256color".to_owned())), None);
    assert_eq!(identifying_term(Some("screen".to_owned())), None);
    assert_eq!(
        identifying_term(Some("xterm-ghostty".to_owned())),
        Some("xterm-ghostty".to_owned())
    );
    // Unknown values stay in. A terminal-specific TERM peal has not seen is exactly
    // what a probe is for, and a human reads the entry before it is committed.
    assert_eq!(
        identifying_term(Some("nonesuch".to_owned())),
        Some("nonesuch".to_owned())
    );
}

/// tmux overwrites TERM_PROGRAM with its own name, so an entry recording it would
/// match every terminal running under tmux rather than the one measured.
#[test]
fn says_the_environment_describes_tmux_rather_than_the_terminal() {
    let through = Measurement {
        term_program: None,
        term: None,
        through_tmux: true,
        ..measured(vec![Sequence::Osc9])
    };
    let note = identification_note(&through, Some("tmux-256color")).expect("a note");
    assert!(note.contains("overwrites TERM_PROGRAM"), "{note}");

    let entry = entry(&through);
    assert!(entry.contains("term_program   = []"), "{entry}");
    assert!(entry.contains("term           = []"), "{entry}");
}

/// Every terminal in the table can be identified some way; an entry that cannot be
/// would break that, so it has to be flagged rather than quietly filed.
#[test]
fn flags_an_entry_that_could_never_be_matched() {
    let anonymous = Measurement {
        xtversion: None,
        term_program: None,
        term: None,
        ..measured(vec![Sequence::Osc9])
    };
    let note = identification_note(&anonymous, None).expect("a note");
    assert!(note.contains("cannot be identified"), "{note}");

    // Even under tmux, where the environment is expected to be useless, a terminal
    // that gave no name of its own is the more pressing thing to say.
    let both = Measurement {
        through_tmux: true,
        ..anonymous
    };
    let note = identification_note(&both, None).expect("a note");
    assert!(note.contains("cannot be identified"), "{note}");
}

#[test]
fn orders_dialects_richest_first() {
    assert_eq!(
        richest_first(),
        [Sequence::Osc99, Sequence::Osc777, Sequence::Osc9]
    );
}

#[test]
fn lays_out_an_entry_line_by_line() {
    let text = entry(&measured(vec![Sequence::Osc777, Sequence::Osc9]));
    assert_eq!(
        text,
        "# Measured on macos\n[[terminals]]\nid             = \"ghostty\"\nxtversion      = \"ghostty\"\nterm_program   = [\"ghostty\"]\nterm           = [\"xterm-ghostty\"]\naccepts        = [\"osc777\", \"osc9\"]\nverified       = true\ntested_version = \"1.3.1\"\n"
    );
}

/// The shipped table written out as TOML, in the layout the entries follow.
fn table_as_toml() -> String {
    let db = database();
    let list = |values: &[String]| {
        let quoted: Vec<String> = values.iter().map(|v| format!("\"{v}\"")).collect();
        format!("[{}]", quoted.join(", "))
    };
    let mut out = String::new();
    for (sequence, capability) in &db.sequences {
        out.push_str(&format!("[sequences.{}]\n", sequence.key()));
        out.push_str(&format!("form  = \"{}\"\n", capability.form));
        out.push_str(&format!("title = {}\n", capability.title));
        out.push_str(&format!("body  = {}\n", capability.body));
        out.push_str(&format!("id    = {}\n\n", capability.id));
    }
    for terminal in &db.terminals {
        let accepts: Vec<String> = terminal.accepts.iter().map(|s| s.key().to_owned()).collect();
        out.push_str("[[terminals]]\n");
        out.push_str(&format!("id             = \"{}\"\n", terminal.id));
        out.push_str(&format!("xtversion      = \"{}\"\n", terminal.xtversion));
        out.push_str(&format!("term_program   = {}\n", list(&terminal.term_program)));
        out.push_str(&format!("term           = {}\n", list(&terminal.term)));
        out.push_str(&format!("env            = {}\n", list(&terminal.env)));
        out.push_str(&format!("accepts        = {}\n", list(&accepts)));
        out.push_str(&format!("verified       = {}\n", terminal.verified));
        if let Some(version) = &terminal.tested_version {
            out.push_str(&format!("tested_version = \"{version}\"\n"));
        }
        out.push('\n');
    }
    out
}

fn strings(value: &toml::Value) -> Vec<&str> {
    value.as_array().unwrap().iter().map(|v| v.as_str().unwrap()).collect()
}

/// The entry has to parse as part of the file it is going into, or pasting it in is
/// the reader's problem to debug rather than probe's to get right.
#[test]
fn the_entry_parses_when_appended_to_the_table() {
    let text = entry(&measured(vec![Sequence::Osc777, Sequence::Osc9]));
    let appended = format!("{}\n{text}", table_as_toml());
    let parsed: toml::Table = appended.parse().expect("the entry should parse");

    let terminals = parsed["terminals"].as_array().expect("a terminals array");
    assert_eq!(terminals.len(), database().terminals.len() + 1);
    let terminal = terminals.last().expect("the appended terminal").as_table().unwrap();
    assert_eq!(terminal["id"].as_str(), Some("ghostty"));
    assert_eq!(strings(&terminal["accepts"]), ["osc777", "osc9"]);
    assert_eq!(terminal["tested_version"].as_str(), Some("1.3.1"));
    assert_eq!(strings(&terminal["term"]), ["xterm-ghostty"]);
    assert_eq!(terminal["verified"].as_bool(), Some(true));
}

/// A terminal that answers no XTVERSION leaves the name empty rather than absent.
#[test]
fn an_unnamed_terminal_still_parses() {
    let measurement = Measurement {
        xtversion: None,
        version: None,
        term_program: Some("Apple_Terminal".to_owned()),
        term: None,
        accepts: vec![],
        os: "macos",
        through_tmux: false,
    };
    let appended = format!("{}\n{}", table_as_toml(), entry(&measurement));
    let parsed: toml::Table = appended.parse().expect("the entry should parse");
    let terminal = parsed["terminals"].as_array().unwrap().last().unwrap().as_table().unwrap().clone();
    assert_eq!(terminal["id"].as_str(), Some("apple-terminal"));
    assert_eq!(terminal["xtversion"].as_str(), Some(""));
    assert!(terminal["accepts"].as_array().unwrap().is_empty());
    assert!(!terminal.contains_key("tested_version"));
}

#[test]
fn lists_dialects_by_name() {
    assert_eq!(list(&[]), "nothing");
    assert_eq!(list(&[Sequence::Osc99, Sequence::Osc9]), "OSC 99, OSC 9");
}

#[test]
fn records_the_name_and_version_the_terminal_gave() {
    let db = database();
    let known = Resolution::Known {
        terminal: db.terminal("ghostty").unwrap().clone(),
        evidence: Evidence::XtVersion,
        version: Some("1.4.0".to_owned()),
    };
    assert_eq!(
        measured_identity(&known),
        (Some("ghostty".to_owned()), Some("1.4.0".to_owned()))
    );
    let apple = Resolution::Known {
        terminal: db.terminal("apple-terminal").unwrap().clone(),
        evidence: Evidence::TermProgram,
        version: None,
    };
    assert_eq!(measured_identity(&apple), (None, None));
    assert_eq!(measured_identity(&Resolution::Unknown), (None, None));
}

#[test]
fn records_no_environment_under_tmux() {
    assert_eq!(
        recorded_environment(true, Some("tmux".to_owned()), Some("tmux-256color".to_owned())),
        (None, None)
    );
    assert_eq!(
        recorded_environment(false, Some("".to_owned()), Some("xterm-256color".to_owned())),
        (None, None)
    );
    assert_eq!(
        recorded_environment(false, Some("ghostty".to_owned()), Some("xterm-ghostty".to_owned())),
        (Some("ghostty".to_owned()), Some("xterm-ghostty".to_owned()))
    );
}

#[test]
fn explains_a_generic_term_left_out() {
    let m = measured(vec![Sequence::Osc9]);
    let note = identification_note(&m, Some("xterm-256color")).expect("a note");
    assert!(note.contains("TERM is \"xterm-256color\""), "{note}");
    assert_eq!(identification_note(&m, Some("xterm-ghostty")), None);
}

#[test]
fn asks_and_numbers_each_dialect() {
    assert_eq!(intro(3), "\nSending 3 dialects, one at a time. Say whether a notification appeared.\n\n");
    assert_eq!(dialect_body(Sequence::Osc777, 1, 3), "OSC 777 — this is dialect 2 of 3");
    assert_eq!(
        question(Sequence::Osc9, 2, 3),
        "  [3/3] Sent OSC 9. Did a notification appear? [y/n] "
    );
}

#[test]
fn reads_yes_and_no_and_nothing_else() {
    assert_eq!(interpret_answer(" Yes\n"), Some(true));
    assert_eq!(interpret_answer("y"), Some(true));
    assert_eq!(interpret_answer("NO"), Some(false));
    assert_eq!(interpret_answer("n\n"), Some(false));
    assert_eq!(interpret_answer("maybe"), None);
    assert_eq!(interpret_answer(""), None);
    assert_eq!(classify_answer("yes"), Some(true));
}

#[test]
fn reports_a_run_where_nothing_appeared() {
    let m = Measurement {
        accepts: vec![],
        ..measured(vec![])
    };
    let report = probe_report(&m, Some("xterm-ghostty"));
    assert!(report.starts_with("\n  Nothing appeared for any dialect."), "{report}");
    assert!(report.contains("disagrees"), "{report}");
    assert!(report.ends_with("verified       = true\ntested_version = \"1.3.1\"\n"), "{report}");
}

/// What is recorded is what was seen: each answer decides the dialect tried in its turn,
/// and the record keeps the order they were tried in, richest first.
#[test]
fn records_the_dialects_answered_yes_richest_first() {
    assert_eq!(accepted_from(&[true, true, true]), [Sequence::Osc99, Sequence::Osc777, Sequence::Osc9]);
    assert_eq!(accepted_from(&[false, true, true]), [Sequence::Osc777, Sequence::Osc9]);
    assert_eq!(accepted_from(&[false, false, true]), [Sequence::Osc9]);
    assert_eq!(accepted_from(&[true, false, false]), [Sequence::Osc99]);
    assert!(accepted_from(&[false, false, false]).is_empty());
    assert!(accepted_from(&[]).is_empty());
}

#[test]
fn tries_each_dialect_with_a_notification_naming_it() {
    let sent = String::from_utf8(trial(Sequence::Osc9, 2, 3, false, "peal-1-0")).unwrap();
    assert_eq!(sent, "\x1b]9;OSC 9 — this is dialect 3 of 3\x07");
    let wrapped = String::from_utf8(trial(Sequence::Osc9, 2, 3, true, "peal-1-0")).unwrap();
    assert!(wrapped.starts_with("\x1bPtmux;\x1b\x1b]9;"), "{wrapped:?}");
}

#[test]
fn refuses_to_probe_without_a_terminal() {
    assert_eq!(
        refusal(&Resolution::NoTty),
        Some("probe needs a terminal to measure; this process has none")
    );
    assert_eq!(refusal(&Resolution::Unknown), None);
}

#[test]
fn the_report_ends_with_the_entry() {
    let m = measured(vec![]);
    let report = probe_report(&m, None);
    assert!(report.ends_with(&entry(&m)), "{report}");
    assert!(report.starts_with(&format!("\n{}", nothing_appeared("macos"))), "{report}");
}
