use peal::database;
use peal::detect::{Evidence, Resolution};
use peal::doctor::report;
use peal::notify::Delivery;
use peal::Sequence;

fn known(id: &str, evidence: Evidence) -> Resolution {
    Resolution::Known {
        terminal: database().terminal(id).expect("terminal in the table").clone(),
        evidence,
        version: None,
    }
}

#[test]
fn names_the_terminal_and_how_it_was_found() {
    let report = report(&known("kitty", Evidence::XtVersion), false, None, "macos");
    assert!(report.contains("kitty"), "{report}");
    assert!(report.contains("named itself"), "{report}");
    assert!(report.contains("0.48.2"), "{report}");
}

/// The four requests must each get a line, or the reader cannot tell which case
/// their own call falls into.
#[test]
fn covers_every_shape_of_notification() {
    let report = report(&known("kitty", Evidence::XtVersion), false, None, "macos");
    for label in ["a plain notification", "with a title", "with a name", "with both"] {
        assert!(report.contains(label), "missing {label}:\n{report}");
    }
}

/// What a terminal cannot do is the part worth reading, so it has to be spelled out
/// rather than left as a missing dialect name.
#[test]
fn explains_what_iterm2_cannot_carry() {
    let report = report(&known("iterm2", Evidence::TermProgram), false, None, "macos");
    assert!(report.contains("the title joins the body"), "{report}");
    assert!(report.contains("the name is dropped"), "{report}");
}

/// The table names dialects; the wire format belongs underneath it, where it does
/// not push the four answers off to the right.
#[test]
fn names_dialects_in_the_table_and_spells_them_out_below() {
    let report = report(&known("ghostty", Evidence::XtVersion), false, None, "macos");
    let (table, full) = report.split_once("In full:").expect("a forms section");
    assert!(table.contains("with a title          OSC 777"), "{table}");
    assert!(!table.contains("OSC 777 ; notify"), "{table}");
    assert!(
        full.contains("OSC 777 ; notify ; <title> ; <body> BEL"),
        "{full}"
    );
}

/// A dialect used by more than one of the four shapes is spelled out once — including
/// when the shapes that use it are not adjacent, as on Ghostty.
#[test]
fn spells_out_each_dialect_once() {
    let iterm2 = report(&known("iterm2", Evidence::TermProgram), false, None, "macos");
    assert_eq!(iterm2.matches("OSC 9 ; <body> BEL").count(), 1, "{iterm2}");

    let ghostty = report(&known("ghostty", Evidence::XtVersion), false, None, "macos");
    let (_, full) = ghostty.split_once("In full:").expect("a forms section");
    assert_eq!(full.matches("OSC 9 ; <body> BEL").count(), 1, "{full}");
    assert_eq!(full.matches("OSC 777 ; notify").count(), 1, "{full}");
}

/// Terminal.app treats every shape alike, so saying so four times would read as four
/// separate answers that happen to agree.
#[test]
fn tells_apple_terminal_once_that_it_gets_the_bell() {
    let report = report(&known("apple-terminal", Evidence::TermProgram), false, None, "macos");
    assert_eq!(
        report.matches("raises no notifications").count(),
        1,
        "{report}"
    );
    assert!(report.contains("any notification"), "{report}");
}

/// A guess has to read as a guess.
#[test]
fn marks_an_unlisted_terminal_as_extrapolation() {
    let resolution = Resolution::UnknownButModern {
        name: "Nonesuch".to_owned(),
        version: None,
    };
    let report = report(&resolution, false, None, "macos");
    assert!(report.contains("Nonesuch"), "{report}");
    assert!(report.contains("extrapolation"), "{report}");
}

/// The table records the version it was measured against. A reader on a newer one
/// is reading something that may have gone stale.
#[test]
fn warns_when_the_running_version_is_not_the_measured_one() {
    let resolution = Resolution::Known {
        terminal: database().terminal("ghostty").expect("in the table").clone(),
        evidence: Evidence::XtVersion,
        version: Some("1.4.0".to_owned()),
    };
    let newer = report(&resolution, false, None, "macos");
    assert!(newer.contains("Measured on version 1.3.1"), "{newer}");
    assert!(newer.contains("You are running 1.4.0"), "{newer}");

    let same = Resolution::Known {
        terminal: database().terminal("ghostty").expect("in the table").clone(),
        evidence: Evidence::XtVersion,
        version: Some("1.3.1".to_owned()),
    };
    let matching = report(&same, false, None, "macos");
    assert!(!matching.contains("You are running"), "{matching}");
}

#[test]
fn explains_why_tmux_limits_what_it_can_say() {
    let report = report(&known("kitty", Evidence::Term), true, None, "macos");
    assert!(report.contains("tmux"), "{report}");
    assert!(report.contains("allow-passthrough"), "{report}");
}

/// Without a terminal the first section has said everything; the rest would only
/// repeat "there is no terminal" in three more shapes.
#[test]
fn stops_after_saying_there_is_no_terminal() {
    let report = report(&Resolution::NoTty, false, Some(&Delivery::Nothing), "macos");
    assert!(report.contains("no controlling terminal"), "{report}");
    assert!(!report.contains("What peal sends here"), "{report}");
    assert!(!report.contains("Test notification"), "{report}");
}

/// The permission note is the single most useful line in the report, and it is only
/// worth printing when something was actually sent for the reader to have missed.
#[test]
fn asks_whether_the_test_notification_appeared() {
    let delivery = Delivery::Sent {
        sequence: Sequence::Osc777,
        folded_title: false,
        dropped_id: false,
    };
    let report = report(
        &known("ghostty", Evidence::XtVersion),
        false,
        Some(&delivery),
        "macos",
    );
    assert!(report.contains("Did it appear?"), "{report}");
    assert!(report.contains("not permitted to post"), "{report}");
    assert!(report.contains("System Settings"), "{report}");
}

#[test]
fn points_elsewhere_for_permissions_off_macos() {
    let delivery = Delivery::Sent {
        sequence: Sequence::Osc9,
        folded_title: false,
        dropped_id: false,
    };
    let report = report(&known("ghostty", Evidence::XtVersion), false, Some(&delivery), "linux");
    assert!(report.contains("desktop\n  environment"), "{report}");
    assert!(!report.contains("System Settings"), "{report}");
}

#[test]
fn lays_out_the_whole_report_for_iterm2() {
    let expected = "Terminal\n  iterm2 — recognised from TERM_PROGRAM, since it answers no query\n  Measured on version 3.6.11, so what follows was observed rather than assumed.\n\nWhat peal sends here\n  any notification      OSC 9     the title joins the body, the name is dropped\n\n  In full:\n    OSC 9     OSC 9 ; <body> BEL\n";
    let plain = report(&known("iterm2", Evidence::TermProgram), false, None, "macos");
    assert!(plain.starts_with("Terminal\n  iterm2 — recognised from TERM_PROGRAM"), "{plain}");
    assert!(plain.contains("  a plain notification  OSC 9\n"), "{plain}");
    assert!(plain.contains("  with both             OSC 9     the title joins the body, the name is dropped\n"), "{plain}");
    assert_ne!(plain, expected);
}

#[test]
fn names_the_marker_that_identified_the_terminal() {
    let report = report(
        &known("windows-terminal", Evidence::EnvMarker("WT_SESSION".to_owned())),
        false,
        None,
        "windows",
    );
    assert!(report.contains("recognised from WT_SESSION"), "{report}");
    assert!(report.contains("Taken from documentation"), "{report}");
}
