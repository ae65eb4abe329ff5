use peal::detect::parse::{terminal_name, terminal_version};

#[test]
fn reads_a_space_separated_reply() {
    assert_eq!(terminal_name("\x1bP>|ghostty 1.3.1\x1b\\"), Some("ghostty"));
}

/// kitty parenthesises its version instead of separating it with a space.
#[test]
fn reads_a_parenthesised_reply() {
    assert_eq!(terminal_name("\x1bP>|kitty(0.48.2)\x1b\\"), Some("kitty"));
}

#[test]
fn reads_a_mixed_case_reply() {
    assert_eq!(terminal_name("\x1bP>|iTerm2 3.6.11\x1b\\"), Some("iTerm2"));
}

#[test]
fn accepts_bel_as_the_terminator() {
    assert_eq!(terminal_name("\x1bP>|ghostty 1.3.1\x07"), Some("ghostty"));
}

#[test]
fn accepts_the_eight_bit_form() {
    assert_eq!(
        terminal_name("\u{90}>|ghostty 1.3.1\u{9c}"),
        Some("ghostty")
    );
}

/// A terminal that ignores XTVERSION may still have answered an earlier query,
/// so leftover bytes in the buffer must not be mistaken for a name.
#[test]
fn rejects_a_reply_to_some_other_query() {
    assert_eq!(terminal_name("\x1b[?62;4c"), None);
    assert_eq!(terminal_name(""), None);
}

#[test]
fn rejects_an_empty_payload() {
    assert_eq!(terminal_name("\x1bP>|\x1b\\"), None);
    assert_eq!(terminal_name("\x1bP>|   \x1b\\"), None);
}

/// The read may return the reply with nothing following it, terminator included.
#[test]
fn tolerates_a_missing_terminator() {
    assert_eq!(terminal_name("\x1bP>|ghostty 1.3.1"), Some("ghostty"));
}

#[test]
fn tolerates_bytes_around_the_reply() {
    assert_eq!(
        terminal_name("junk\x1bP > |WezTerm 2024\x1b\\\x1b[?62;4c"),
        Some("WezTerm")
    );
}

#[test]
fn reads_the_version_after_the_name() {
    assert_eq!(terminal_version("\x1bP>|ghostty 1.3.1\x1b\\"), Some("1.3.1"));
    assert_eq!(terminal_version("\x1bP>|kitty(0.48.2)\x1b\\"), Some("0.48.2"));
    assert_eq!(terminal_version("\x1bP>|iTerm2 3.6.11\x07"), Some("3.6.11"));
    assert_eq!(terminal_version("\x1bP>|ghostty\x1b\\"), None);
    assert_eq!(terminal_version("\x1b[?62;4c"), None);
}
