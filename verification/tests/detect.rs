use peal::detect::{resolve_from, Evidence, Resolution, Route, Signals};

fn known(resolution: &Resolution) -> (&str, Evidence) {
    match resolution {
        Resolution::Known {
            terminal, evidence, ..
        } => (terminal.id.as_str(), evidence.clone()),
        other => panic!("expected a known terminal, got {other:?}"),
    }
}

#[test]
fn prefers_the_terminals_own_answer() {
    // kitty run from a shell that inherited iTerm2's environment: the query wins,
    // because the variables describe whatever launched the terminal.
    let resolution = resolve_from(Signals {
        xtversion_name: Some("kitty"),
        term_program: Some("iTerm.app"),
        term: Some("xterm-256color"),
        ..Signals::default()
    });
    assert_eq!(known(&resolution), ("kitty", Evidence::XtVersion));
}

#[test]
fn falls_back_to_the_environment_when_the_terminal_stays_silent() {
    let resolution = resolve_from(Signals {
        term_program: Some("Apple_Terminal"),
        term: Some("xterm-256color"),
        ..Signals::default()
    });
    assert_eq!(
        known(&resolution),
        ("apple-terminal", Evidence::TermProgram)
    );
}

/// A name we do not know does not discard an environment we do.
#[test]
fn an_unknown_name_still_lets_the_environment_decide() {
    let resolution = resolve_from(Signals {
        xtversion_name: Some("tmux"),
        term: Some("xterm-kitty"),
        ..Signals::default()
    });
    assert_eq!(known(&resolution), ("kitty", Evidence::Term));
}

#[test]
fn reports_an_unlisted_terminal_as_a_guess() {
    let resolution = resolve_from(Signals {
        xtversion_name: Some("Nonesuch"),
        term_program: Some("Nonesuch"),
        term: Some("nonesuch"),
        ..Signals::default()
    });
    assert_eq!(
        resolution,
        Resolution::UnknownButModern {
            name: "Nonesuch".to_owned(),
            version: None,
        }
    );
}

/// An answer that only arrived because it was wrapped is worth telling apart: it
/// proves tmux will carry the notifications too.
#[test]
fn records_that_the_answer_came_through_tmux() {
    let resolution = resolve_from(Signals {
        xtversion_name: Some("kitty"),
        route: Route::ThroughTmux,
        ..Signals::default()
    });
    assert_eq!(
        known(&resolution),
        ("kitty", Evidence::XtVersionThroughTmux)
    );
}

/// tmux with allow-passthrough off: the wrapped question reaches nobody, so there is
/// no answer, and kitty sets no TERM_PROGRAM to fall back on.
#[test]
fn falls_back_to_nothing_when_the_wrapper_reaches_nobody() {
    let resolution = resolve_from(Signals {
        route: Route::ThroughTmux,
        term: Some("screen-256color"),
        ..Signals::default()
    });
    assert_eq!(resolution, Resolution::Unknown);
}

/// The version travels with the name so that probe can record which release it
/// measured, whether or not the terminal is one the table already knows.
#[test]
fn keeps_the_version_the_terminal_reported() {
    let listed = resolve_from(Signals {
        xtversion_name: Some("ghostty"),
        xtversion_version: Some("1.4.0"),
        ..Signals::default()
    });
    assert!(
        matches!(listed, Resolution::Known { version: Some(ref v), .. } if v == "1.4.0"),
        "{listed:?}"
    );

    let unlisted = resolve_from(Signals {
        xtversion_name: Some("Nonesuch"),
        xtversion_version: Some("20260101-abc"),
        ..Signals::default()
    });
    assert_eq!(
        unlisted,
        Resolution::UnknownButModern {
            name: "Nonesuch".to_owned(),
            version: Some("20260101-abc".to_owned()),
        }
    );
}

#[test]
fn reports_a_terminal_that_says_nothing_at_all_as_unknown() {
    assert_eq!(
        resolve_from(Signals {
            ..Signals::default()
        }),
        Resolution::Unknown
    );
    assert_eq!(
        resolve_from(Signals {
            term_program: Some("Nonesuch"),
            term: Some("nonesuch"),
            ..Signals::default()
        }),
        Resolution::Unknown
    );
}

/// A marker variable found in the environment identifies the terminal that sets it.
#[test]
fn recognises_a_terminal_by_the_marker_it_sets() {
    let markers = ["WT_SESSION"];
    let resolution = resolve_from(Signals {
        markers: &markers,
        ..Signals::default()
    });
    assert_eq!(
        known(&resolution),
        ("windows-terminal", Evidence::EnvMarker("WT_SESSION".to_owned()))
    );
}

/// A terminal that answers no XTVERSION reports no version, even where the table knows it.
#[test]
fn an_environment_match_carries_no_version() {
    let resolution = resolve_from(Signals {
        xtversion_version: Some("9.9"),
        term_program: Some("iTerm.app"),
        ..Signals::default()
    });
    assert!(matches!(resolution, Resolution::Known { version: None, .. }), "{resolution:?}");
}
