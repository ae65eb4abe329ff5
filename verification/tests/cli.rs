use peal::cli::{announcements, Command};
use peal::notify::{Delivery, Notification};
use peal::Sequence;

fn parse(line: &str) -> Result<Command, String> {
    let arguments: Vec<String> = line.split_whitespace().map(str::to_owned).collect();
    Command::parse(&arguments)
}

#[test]
fn a_lone_argument_is_the_body() {
    assert_eq!(
        parse("done"),
        Ok(Command::Notify(Notification::new("done")))
    );
}

#[test]
fn reads_the_options() {
    assert_eq!(
        parse("--title peal --name build done"),
        Ok(Command::Notify(
            Notification::titled("peal", "done").named("build")
        ))
    );
}

/// Options after the body read the same as options before it.
#[test]
fn order_does_not_matter() {
    assert_eq!(parse("done --title peal"), parse("--title peal done"));
}

#[test]
fn the_two_commands_are_commands_not_bodies() {
    assert_eq!(parse("doctor"), Ok(Command::Doctor));
    assert_eq!(parse("probe"), Ok(Command::Probe));
}

/// The escape hatch for the one body that would otherwise be swallowed.
#[test]
fn a_body_of_doctor_gets_through_after_a_double_dash() {
    assert_eq!(
        parse("-- doctor"),
        Ok(Command::Notify(Notification::new("doctor")))
    );
}

#[test]
fn nothing_at_all_asks_for_help() {
    assert_eq!(parse(""), Ok(Command::Help));
    assert_eq!(parse("--help"), Ok(Command::Help));
}

/// Capital `-V`, as every other command-line program spells it; lowercase `-v` is
/// left free for the verbosity flag it usually means.
#[test]
fn asks_which_version_is_running() {
    assert_eq!(parse("--version"), Ok(Command::Version));
    assert_eq!(parse("-V"), Ok(Command::Version));
    // A body of "--version" is still reachable, the same way "doctor" is.
    assert_eq!(
        parse("-- --version"),
        Ok(Command::Notify(Notification::new("--version")))
    );
}

#[test]
fn refuses_what_it_cannot_read() {
    assert!(parse("--title").is_err());
    assert!(parse("--colour red done").is_err());
    assert!(parse("one two").is_err());
    assert!(parse("--title peal").is_err());
}

#[test]
fn says_what_it_could_not_read() {
    assert_eq!(parse("--title"), Err("--title needs a value".to_owned()));
    assert_eq!(parse("--name"), Err("--name needs a value".to_owned()));
    assert_eq!(parse("--colour red done"), Err("unknown option --colour".to_owned()));
    assert_eq!(parse("one two"), Err("expected one body, also got \"two\"".to_owned()));
    assert_eq!(parse("--title peal"), Err("no body given".to_owned()));
    assert_eq!(parse("--"), Err("no body given after --".to_owned()));
    assert_eq!(parse("-- a b"), Err("expected one body, got several".to_owned()));
}

#[test]
fn a_help_option_anywhere_asks_for_help() {
    assert_eq!(parse("done -h"), Ok(Command::Help));
    assert_eq!(parse("--title peal -V"), Ok(Command::Version));
}

#[test]
fn announces_only_what_the_caller_could_not_predict() {
    let whole = Delivery::Sent { sequence: Sequence::Osc777, folded_title: false, dropped_id: false };
    assert!(announcements(&whole).is_empty());
    let reduced = Delivery::Sent { sequence: Sequence::Osc9, folded_title: true, dropped_id: true };
    assert_eq!(
        announcements(&reduced),
        [
            "peal: this terminal shows no separate title; it was folded into the body",
            "peal: this terminal cannot replace a notification; the name was dropped"
        ]
    );
    assert_eq!(
        announcements(&Delivery::Bell),
        ["peal: this terminal raises no notifications; rang the bell instead"]
    );
    assert_eq!(
        announcements(&Delivery::Nothing),
        ["peal: no terminal attached; nothing was sent"]
    );
}
