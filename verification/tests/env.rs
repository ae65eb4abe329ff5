use peal::database;
use peal::detect::env::{by_env, by_xtversion, marker_names, Evidence};

#[test]
fn matches_an_xtversion_name_regardless_of_case() {
    let db = database();
    assert_eq!(by_xtversion(&db, "iTerm2").map(|t| &*t.id), Some("iterm2"));
    assert_eq!(by_xtversion(&db, "iterm2").map(|t| &*t.id), Some("iterm2"));
    assert_eq!(by_xtversion(&db, "GHOSTTY").map(|t| &*t.id), Some("ghostty"));
}

/// The name is deliberately one no terminal has.
#[test]
fn does_not_match_an_unknown_name() {
    assert!(by_xtversion(&database(), "nonesuch").is_none());
}

/// Terminal.app answers no XTVERSION, so its entry records an empty name. An empty
/// reply must not select it — that would make every silent terminal Terminal.app.
#[test]
fn an_empty_name_matches_nothing() {
    assert!(by_xtversion(&database(), "").is_none());
}

#[test]
fn identifies_apple_terminal_from_term_program() {
    let db = database();
    let (terminal, evidence) =
        by_env(&db, Some("Apple_Terminal"), &[], Some("xterm-256color")).unwrap();
    assert_eq!(terminal.id, "apple-terminal");
    assert_eq!(evidence, Evidence::TermProgram);
}

/// kitty sets no TERM_PROGRAM at all, which is why TERM has to be consulted too.
#[test]
fn falls_back_to_term() {
    let db = database();
    let (terminal, evidence) = by_env(&db, None, &[], Some("xterm-kitty")).unwrap();
    assert_eq!(terminal.id, "kitty");
    assert_eq!(evidence, Evidence::Term);
}

/// An unset variable reaches us as an empty string as readily as as `None`.
#[test]
fn ignores_empty_values() {
    let db = database();
    assert!(by_env(&db, Some(""), &[], Some("")).is_none());
    assert!(by_env(&db, None, &[], None).is_none());
    let (terminal, _) = by_env(&db, Some(""), &[], Some("xterm-kitty")).unwrap();
    assert_eq!(terminal.id, "kitty");
}

#[test]
fn does_not_identify_an_unknown_environment() {
    assert!(by_env(
        &database(),
        Some("Nonesuch"),
        &["NONESUCH_SESSION"],
        Some("nonesuch")
    )
    .is_none());
}

/// Windows Terminal sets neither variable the other two channels read, so the marker
/// is the whole of its identification.
#[test]
fn identifies_a_terminal_by_a_marker_variable() {
    let db = database();
    let (terminal, evidence) =
        by_env(&db, None, &["WT_SESSION"], Some("xterm-256color")).unwrap();
    assert_eq!(terminal.id, "windows-terminal");
    assert_eq!(evidence, Evidence::EnvMarker("WT_SESSION".to_owned()));
}

/// The marker is a fallback for terminals that name themselves no other way, so a
/// TERM_PROGRAM that the table knows still wins.
#[test]
fn a_named_application_outranks_a_marker() {
    let db = database();
    let (terminal, evidence) = by_env(&db, Some("Apple_Terminal"), &["WT_SESSION"], None).unwrap();
    assert_eq!(terminal.id, "apple-terminal");
    assert_eq!(evidence, Evidence::TermProgram);
}

/// TERM is the weakest channel and a terminfo name can be claimed by anything, so a
/// marker is consulted before it.
#[test]
fn a_marker_outranks_term() {
    let db = database();
    let (terminal, _) = by_env(&db, None, &["WT_SESSION"], Some("xterm-kitty")).unwrap();
    assert_eq!(terminal.id, "windows-terminal");
}

#[test]
fn marker_names_come_from_the_table() {
    assert!(marker_names(&database())
        .iter()
        .any(|name| name == "WT_SESSION"));
}

/// The marker is matched without regard to ASCII case, and reported as the table spells it.
#[test]
fn matches_a_marker_regardless_of_case() {
    let db = database();
    let (_, evidence) = by_env(&db, None, &["wt_session"], None).unwrap();
    assert_eq!(evidence, Evidence::EnvMarker("WT_SESSION".to_owned()));
}
