use peal::notify::render::{anonymous_id, base64, bytes, encode_id, sanitize, UnnamedIds};
use peal::Sequence;

#[test]
fn strips_escapes_that_would_end_the_sequence_early() {
    assert_eq!(sanitize("done\x07; rm -rf /"), "done; rm -rf /");
    assert_eq!(sanitize("done\x1b]9;gotcha\x07"), "done]9;gotcha");
}

#[test]
fn folds_whitespace_onto_one_line() {
    assert_eq!(sanitize("build\nfailed\ttwice"), "build failed twice");
    assert_eq!(sanitize("  padded  "), "padded");
}

/// C1 controls are a second way to open an escape sequence, in a single byte.
#[test]
fn strips_eight_bit_controls() {
    assert_eq!(sanitize("done\u{9b}5m"), "done5m");
}

#[test]
fn keeps_text_that_only_looks_alarming() {
    assert_eq!(sanitize("100% done — ✓ 日本語"), "100% done — ✓ 日本語");
}

#[test]
fn writes_osc9() {
    assert_eq!(
        bytes(Sequence::Osc9, None, "build finished", None, "unused"),
        b"\x1b]9;build finished\x07"
    );
}

/// OSC 9 carries no title, so a caller that failed to fold one in loses it here
/// rather than corrupting the sequence with an extra field.
#[test]
fn osc9_ignores_a_title() {
    assert_eq!(
        bytes(Sequence::Osc9, Some("peal"), "build finished", None, "unused"),
        b"\x1b]9;build finished\x07"
    );
}

#[test]
fn writes_osc777() {
    assert_eq!(
        bytes(Sequence::Osc777, Some("peal"), "build finished", None, "unused"),
        b"\x1b]777;notify;peal;build finished\x07"
    );
}

/// Unreachable through `notify`, which sends an untitled notification as OSC 9, and
/// unmeasured for that reason. Pinned so the shape is at least deliberate.
#[test]
fn osc777_without_a_title_sends_the_body_as_the_title() {
    assert_eq!(
        bytes(Sequence::Osc777, None, "build finished", None, "unused"),
        b"\x1b]777;notify;build finished\x07"
    );
}

/// The id the escape actually carries, so the tests can assert on the rest of the
/// bytes without pinning a value that must change every time.
fn osc99_id_of(sent: &str) -> String {
    let after = sent.split_once("i=").expect("an id").1;
    after
        .split_once(':')
        .expect("a metadata separator")
        .0
        .to_owned()
}

#[test]
fn writes_osc99_as_two_chunks_sharing_an_id() {
    let unnamed = anonymous_id(4242, 0);
    let sent =
        String::from_utf8(bytes(Sequence::Osc99, Some("peal"), "done", None, &unnamed)).unwrap();
    let id = osc99_id_of(&sent);
    assert_eq!(
        sent,
        format!(
            "\x1b]99;i={id}:d=0:p=title:e=1;cGVhbA==\x1b\\\x1b]99;i={id}:d=1:p=body:e=1;ZG9uZQ==\x1b\\"
        )
    );
}

#[test]
fn writes_osc99_without_a_title_as_one_chunk() {
    let unnamed = anonymous_id(4242, 1);
    let sent = String::from_utf8(bytes(Sequence::Osc99, None, "done", None, &unnamed)).unwrap();
    let id = osc99_id_of(&sent);
    assert_eq!(sent, format!("\x1b]99;i={id}:d=1:e=1;ZG9uZQ==\x1b\\"));
}

/// kitty replaces a notification whose id it has seen before, so an unnamed one must
/// never reuse an id or every notification would erase the last.
#[test]
fn each_anonymous_osc99_notification_gets_its_own_id() {
    let mut ids = UnnamedIds::new(4242);
    let first = bytes(Sequence::Osc99, None, "done", None, &ids.next());
    let second = bytes(Sequence::Osc99, None, "done", None, &ids.next());
    assert_ne!(
        osc99_id_of(&String::from_utf8(first).unwrap()),
        osc99_id_of(&String::from_utf8(second).unwrap())
    );
}

/// An empty title is the same as none: sending the field empty would show a blank
/// heading above the body.
#[test]
fn an_empty_title_is_no_title() {
    assert_eq!(
        bytes(Sequence::Osc777, Some("  "), "done", None, "unused"),
        bytes(Sequence::Osc777, None, "done", None, "unused")
    );
}

/// A named notification keeps its name across sends, which is what makes the second
/// one replace the first.
#[test]
fn a_named_osc99_notification_reuses_its_id() {
    let first =
        String::from_utf8(bytes(Sequence::Osc99, None, "first", Some("build"), "peal-1-0")).unwrap();
    let second =
        String::from_utf8(bytes(Sequence::Osc99, None, "second", Some("build"), "peal-1-1")).unwrap();
    let other =
        String::from_utf8(bytes(Sequence::Osc99, None, "first", Some("deploy"), "peal-1-2")).unwrap();
    assert_eq!(osc99_id_of(&first), osc99_id_of(&second));
    assert_ne!(osc99_id_of(&first), osc99_id_of(&other));
}

/// `:` ends a metadata field and `;` ends the metadata, so a name containing either
/// would rewrite the escape around it if it went out as written.
#[test]
fn an_id_cannot_break_out_of_its_field() {
    let sent = String::from_utf8(bytes(
        Sequence::Osc99,
        None,
        "done",
        Some("a:b;p=body"),
        "peal-1-0",
    ))
    .unwrap();
    let id = osc99_id_of(&sent);
    assert!(!id.contains(':'), "{id}");
    assert!(!id.contains(';'), "{id}");
    assert_eq!(sent, format!("\x1b]99;i={id}:d=1:e=1;ZG9uZQ==\x1b\\"));
}

/// Unpadded, and using the two characters the URL alphabet substitutes.
#[test]
fn encodes_an_id_with_the_url_alphabet() {
    assert_eq!(encode_id(""), "");
    assert_eq!(encode_id("build"), "YnVpbGQ");
    assert_eq!(encode_id("~~~"), "fn5-");
    assert_eq!(encode_id("~~?"), "fn4_");
}

#[test]
fn encodes_base64_with_padding() {
    assert_eq!(base64(b""), "");
    assert_eq!(base64(b"a"), "YQ==");
    assert_eq!(base64(b"ab"), "YWI=");
    assert_eq!(base64(b"abc"), "YWJj");
    assert_eq!(base64(b"abcd"), "YWJjZA==");
    assert_eq!(base64("日本語".as_bytes()), "5pel5pys6Kqe");
}

#[test]
fn spells_anonymous_ids_with_process_and_serial() {
    assert_eq!(anonymous_id(4242, 0), "peal-4242-0");
    assert_eq!(anonymous_id(7, 1234567890123), "peal-7-1234567890123");
    assert_ne!(anonymous_id(1, 10), anonymous_id(1, 1));
}

#[test]
fn sanitizes_the_title_and_body_on_the_way_out() {
    assert_eq!(
        bytes(Sequence::Osc777, Some("\x1bpeal\n"), "build\tdone\x07", None, "unused"),
        b"\x1b]777;notify;peal;build done\x07"
    );
}

#[test]
fn hands_out_ids_counting_up_from_zero() {
    let mut ids = UnnamedIds::new(7);
    assert_eq!(ids.next(), "peal-7-0");
    assert_eq!(ids.next(), "peal-7-1");
    assert_eq!(ids.next(), "peal-7-2");
}

#[test]
fn pads_base64_to_whole_groups_of_four() {
    for (input, expected) in [("", ""), ("a", "YQ=="), ("ab", "YWI="), ("abc", "YWJj"), ("abcd", "YWJjZA==")] {
        let encoded = base64(input.as_bytes());
        assert_eq!(encoded, expected);
        assert_eq!(encoded.len(), 4 * input.len().div_ceil(3));
        assert_eq!(encoded.matches('=').count(), (3 - input.len() % 3) % 3);
    }
}
