use peal::database;
use peal::detect::{Evidence, Resolution};
use peal::notify::{choose_dialect, plan, preview, to, Delivery, Notification, GUESS};
use peal::Sequence;

fn accepts(id: &str) -> Vec<Sequence> {
    database()
        .terminal(id)
        .expect("terminal in the table")
        .accepts
        .clone()
}

/// kitty accepts all three dialects. A title needs two fields and no more, so it
/// gets OSC 777 rather than OSC 99, whose extra field is the id.
#[test]
fn kitty_gets_the_simplest_dialect_that_carries_a_title() {
    let plan = plan(&accepts("kitty"), &Notification::titled("peal", "done")).unwrap();
    assert_eq!(plan.sequence, Sequence::Osc777);
    assert_eq!(plan.title.as_deref(), Some("peal"));
    assert_eq!(plan.body, "done");
    assert_eq!(plan.id, None);
}

#[test]
fn ghostty_gets_the_one_dialect_of_its_two_that_carries_a_title() {
    let plan = plan(&accepts("ghostty"), &Notification::titled("peal", "done")).unwrap();
    assert_eq!(plan.sequence, Sequence::Osc777);
}

/// Without a title, one field is enough, and a dialect with spare fields would only
/// give the terminal something to fill in.
#[test]
fn an_untitled_notification_drops_to_the_single_field_dialect() {
    assert_eq!(
        choose_dialect(&accepts("kitty"), false, false),
        Some(Sequence::Osc9)
    );
    assert_eq!(
        choose_dialect(&accepts("ghostty"), false, false),
        Some(Sequence::Osc9)
    );
}

/// iTerm2 accepts only OSC 9, which has a single field, so the title has to travel
/// inside the body or not at all.
#[test]
fn iterm2_gets_the_title_folded_into_the_body() {
    let plan = plan(&accepts("iterm2"), &Notification::titled("peal", "done")).unwrap();
    assert_eq!(plan.sequence, Sequence::Osc9);
    assert_eq!(plan.title, None);
    assert_eq!(plan.body, "peal: done");
}

#[test]
fn a_notification_without_a_title_folds_nothing() {
    let plan = plan(&accepts("iterm2"), &Notification::new("done")).unwrap();
    assert_eq!(plan.body, "done");
    assert_eq!(plan.title, None);
}

/// Terminal.app raises no notification by any sequence, so there is nothing to plan.
#[test]
fn apple_terminal_gets_no_dialect() {
    assert!(plan(&accepts("apple-terminal"), &Notification::new("done")).is_none());
    assert!(plan(&[], &Notification::new("done")).is_none());
}

/// An unlisted terminal is guessed at with the one dialect they all accepted.
#[test]
fn the_guess_is_the_widest_dialect() {
    let plan = plan(&GUESS, &Notification::titled("peal", "done")).unwrap();
    assert_eq!(plan.sequence, Sequence::Osc9);
    assert_eq!(plan.body, "peal: done");
}

/// A name is the one thing OSC 99 has that the others do not, so asking for one is
/// what makes it worth its extra field.
#[test]
fn a_named_notification_takes_the_only_dialect_that_carries_a_name() {
    let notification = Notification::titled("peal", "done").named("build");
    let plan = plan(&accepts("kitty"), &notification).unwrap();
    assert_eq!(plan.sequence, Sequence::Osc99);
    assert_eq!(plan.title.as_deref(), Some("peal"));
    assert_eq!(plan.id.as_deref(), Some("build"));
}

#[test]
fn a_named_notification_needs_no_title_to_reach_osc99() {
    let plan = plan(&accepts("kitty"), &Notification::new("done").named("build")).unwrap();
    assert_eq!(plan.sequence, Sequence::Osc99);
    assert_eq!(plan.id.as_deref(), Some("build"));
}

/// Ghostty carries a title but no name. Keeping the title matters more than keeping
/// the name, so the name is what goes.
#[test]
fn a_name_is_given_up_before_a_title_is() {
    let notification = Notification::titled("peal", "done").named("build");
    let plan = plan(&accepts("ghostty"), &notification).unwrap();
    assert_eq!(plan.sequence, Sequence::Osc777);
    assert_eq!(plan.title.as_deref(), Some("peal"));
    assert_eq!(plan.id, None);
}

/// iTerm2 can carry neither, so the title folds into the body and the name is lost.
#[test]
fn iterm2_loses_the_name_and_folds_the_title() {
    let notification = Notification::titled("peal", "done").named("build");
    let plan = plan(&accepts("iterm2"), &notification).unwrap();
    assert_eq!(plan.sequence, Sequence::Osc9);
    assert_eq!(plan.body, "peal: done");
    assert_eq!(plan.id, None);
}

/// An empty name is no name, the same as an empty title: it must not cost the
/// notification a dialect it would otherwise have used.
#[test]
fn an_empty_name_is_no_name() {
    let plan = plan(&accepts("kitty"), &Notification::new("done").named("")).unwrap();
    assert_eq!(plan.sequence, Sequence::Osc9);
    assert_eq!(plan.id, None);
}

fn known(id: &str) -> Resolution {
    let db = database();
    Resolution::Known {
        terminal: db.terminal(id).expect("terminal in the table").clone(),
        evidence: Evidence::XtVersion,
        version: None,
    }
}

#[test]
fn previews_what_would_become_of_a_notification() {
    let both = Notification::titled("peal", "done").named("build");
    assert_eq!(
        preview(&known("iterm2"), &both),
        Delivery::Sent {
            sequence: Sequence::Osc9,
            folded_title: true,
            dropped_id: true
        }
    );
    assert_eq!(preview(&known("apple-terminal"), &both), Delivery::Bell);
    assert_eq!(preview(&Resolution::NoTty, &both), Delivery::Nothing);
    assert_eq!(
        preview(&Resolution::Unknown, &Notification::new("done")),
        Delivery::Bell
    );
}

#[test]
fn sends_what_the_preview_describes() {
    let n = Notification::titled("peal", "done");
    let (sent, delivery) = to(&known("ghostty"), &n, false, "peal-1-0").unwrap();
    assert_eq!(sent, b"\x1b]777;notify;peal;done\x07");
    assert_eq!(delivery, preview(&known("ghostty"), &n));
}

#[test]
fn rings_the_bell_where_no_dialect_is_accepted() {
    let (sent, delivery) = to(&Resolution::Unknown, &Notification::new("done"), false, "x").unwrap();
    assert_eq!(sent, b"\x07");
    assert_eq!(delivery, Delivery::Bell);
}

#[test]
fn sends_nothing_without_a_terminal() {
    assert!(to(&Resolution::NoTty, &Notification::new("done"), false, "x").is_none());
}

#[test]
fn wraps_what_it_sends_under_tmux() {
    let (sent, _) = to(&Resolution::Unknown, &Notification::new("done"), true, "x").unwrap();
    assert_eq!(sent, b"\x1bPtmux;\x07\x1b\\");
}

#[test]
fn guesses_osc9_for_a_terminal_that_named_itself() {
    let guess = Resolution::UnknownButModern {
        name: "Nonesuch".to_owned(),
        version: None,
    };
    let (sent, _) = to(&guess, &Notification::new("done"), false, "x").unwrap();
    assert_eq!(sent, b"\x1b]9;done\x07");
}

/// A blank title is no title: nothing was folded into the body, so nothing is reported.
#[test]
fn a_blank_title_is_not_reported_folded() {
    let delivery = preview(&known("iterm2"), &Notification::titled(" ", "done"));
    assert_eq!(
        delivery,
        Delivery::Sent { sequence: Sequence::Osc9, folded_title: false, dropped_id: false }
    );
}

/// An empty name is no name, so none is reported dropped.
#[test]
fn an_empty_name_is_not_reported_dropped() {
    let delivery = preview(&known("kitty"), &Notification::new("done").named(""));
    assert_eq!(
        delivery,
        Delivery::Sent { sequence: Sequence::Osc9, folded_title: false, dropped_id: false }
    );
}
