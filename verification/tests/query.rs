use peal::detect::query::{ends_with_da1, read_timeout_tenths, through_tmux, xtversion_query, Route};

/// The payload's own ESC bytes are doubled so that the first of them cannot be read
/// as the end of the wrapper.
#[test]
fn wraps_a_sequence_for_tmux() {
    assert_eq!(through_tmux(b"\x1b[>0q"), b"\x1bPtmux;\x1b\x1b[>0q\x1b\\");
    assert_eq!(
        through_tmux(b"\x1b]9;done\x07"),
        b"\x1bPtmux;\x1b\x1b]9;done\x07\x1b\\"
    );
}

#[test]
fn wraps_a_sequence_with_no_escapes_at_all() {
    assert_eq!(through_tmux(b"\x07"), b"\x1bPtmux;\x07\x1b\\");
}

#[test]
fn recognises_a_da1_reply() {
    assert!(ends_with_da1(b"\x1b[?62;4c"));
    assert!(ends_with_da1(b"\x1bP>|ghostty 1.3.1\x1b\\\x1b[?62;4c"));
}

#[test]
fn does_not_mistake_other_bytes_for_da1() {
    assert!(!ends_with_da1(b""));
    assert!(!ends_with_da1(b"\x1bP>|ghostty 1.3.1\x1b\\"));
    assert!(!ends_with_da1(b"c"));
    // A truncated reply must not end the read early.
    assert!(!ends_with_da1(b"\x1b[?62;"));
}

#[test]
fn asks_for_xtversion_with_da1_behind_it() {
    assert_eq!(xtversion_query(Route::Direct), b"\x1b[>0q\x1b[c");
    assert_eq!(
        xtversion_query(Route::ThroughTmux),
        b"\x1bPtmux;\x1b\x1b[>0q\x1b\x1b[c\x1b\\"
    );
}

#[test]
fn counts_the_read_timeout_in_tenths() {
    assert_eq!(read_timeout_tenths(500), 5);
    assert_eq!(read_timeout_tenths(20), 1);
    assert_eq!(read_timeout_tenths(1_000_000), 255);
}
