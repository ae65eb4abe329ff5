//! Reading a terminal's answer to XTVERSION. Pure string work, no I/O.
use vstd::prelude::*;

use crate::search::{find_first, lemma_find_first, lemma_find_first_found};
use crate::text::{
    chars_of, lemma_trim_shape, lemma_trim_start_skip, trim, trim_bounds, trim_start, whitespace,
};

verus! {

broadcast use vstd::string::group_string_axioms;

/// Characters that end the payload: ESC (the first half of `ESC \`), the 8-bit string
/// terminator, and BEL, which some terminals close with instead.
pub open spec fn ends_payload() -> spec_fn(char) -> bool {
    |c: char| c == '\u{1b}' || c == '\u{9c}' || c == '\u{7}'
}

/// Characters that end the terminal's name inside the payload.
pub open spec fn ends_name() -> spec_fn(char) -> bool {
    |c: char| c == ' ' || c == '('
}

/// ESC.
pub open spec fn is_escape() -> spec_fn(char) -> bool {
    |c: char| c == '\u{1b}'
}

/// Where `p` first holds in `s`, or the length of `s` when it never does.
pub open spec fn first_or_len(s: Seq<char>, p: spec_fn(char) -> bool) -> int {
    match find_first(s, p) {
        Some(i) => i,
        None => s.len() as int,
    }
}

/// What follows the `DCS` that opens the reply: `ESC P` where the first ESC is followed
/// by `P`, otherwise the single byte 0x90 at the very start.
pub open spec fn after_dcs(s: Seq<char>) -> Option<Seq<char>> {
    match find_first(s, is_escape()) {
        Some(i) if i + 1 < s.len() && s[i + 1] == 'P' => Some(s.skip(i + 2)),
        _ => if s.len() > 0 && s[0] == '\u{90}' {
            Some(s.drop_first())
        } else {
            None
        },
    }
}

/// The payload of an XTVERSION reply `DCS > | <payload> ST`, tolerating whitespace around
/// the `>` and a missing terminator.
pub open spec fn reply_payload(s: Seq<char>) -> Option<Seq<char>> {
    match after_dcs(s) {
        Some(a) => {
            let b = trim_start(a);
            if b.len() > 0 && b[0] == '>' {
                let c = trim_start(b.drop_first());
                if c.len() > 0 && c[0] == '|' {
                    let d = c.drop_first();
                    Some(d.take(first_or_len(d, ends_payload())))
                } else {
                    None
                }
            } else {
                None
            }
        },
        None => None,
    }
}

/// The leading run of the payload up to the first space or `(`, trimmed.
pub open spec fn payload_name(p: Seq<char>) -> Seq<char> {
    trim(p.take(first_or_len(p, ends_name())))
}

/// What follows the name, trimmed, with one pair of surrounding parentheses removed.
pub open spec fn payload_version(p: Seq<char>) -> Seq<char> {
    let r = trim(p.skip(first_or_len(p, ends_name())));
    let r1 = if r.len() > 0 && r[0] == '(' { r.drop_first() } else { r };
    let r2 = if r1.len() > 0 && r1.last() == ')' { r1.drop_last() } else { r1 };
    trim(r2)
}

/// The name inside an XTVERSION reply, when there is one.
pub open spec fn reply_name(s: Seq<char>) -> Option<Seq<char>> {
    match reply_payload(s) {
        Some(p) => if payload_name(p).len() > 0 { Some(payload_name(p)) } else { None },
        None => None,
    }
}

/// The version inside an XTVERSION reply, when there is one.
pub open spec fn reply_version(s: Seq<char>) -> Option<Seq<char>> {
    match reply_payload(s) {
        Some(p) => if payload_version(p).len() > 0 { Some(payload_version(p)) } else { None },
        None => None,
    }
}

/// Where `p` first holds in `v` at or after `from`, or the length of `v`.
fn scan(v: &Vec<char>, from: usize, which: u8) -> (r: usize)
    requires
        from <= v@.len(),
        which < 3,
    ensures
        from <= r <= v@.len(),
        r - from == first_or_len(
            v@.skip(from as int),
            if which == 0 { is_escape() } else if which == 1 { ends_payload() } else { ends_name() },
        ),
{
    let ghost p = if which == 0 { is_escape() } else if which == 1 { ends_payload() } else { ends_name() };
    let ghost s = v@.skip(from as int);
    let mut i = from;
    while i < v.len()
        invariant
            from <= i <= v@.len(),
            s == v@.skip(from as int),
            p == (if which == 0 { is_escape() } else if which == 1 { ends_payload() } else { ends_name() }),
            forall|j: int| 0 <= j < i - from ==> !p(#[trigger] s[j]),
        decreases v@.len() - i,
    {
        let c = v[i];
        let hit = if which == 0 {
            c == '\u{1b}'
        } else if which == 1 {
            c == '\u{1b}' || c == '\u{9c}' || c == '\u{7}'
        } else {
            c == ' ' || c == '('
        };
        assert(s[i - from] == c);
        if hit {
            proof { lemma_find_first(s, p, i - from); }
            return i;
        }
        i += 1;
    }
    proof { lemma_find_first(s, p, i - from); }
    i
}

/// The first index at or after `from` that is not whitespace.
fn skip_whitespace(v: &Vec<char>, from: usize) -> (r: usize)
    requires
        from <= v@.len(),
    ensures
        from <= r <= v@.len(),
        trim_start(v@.skip(from as int)) == v@.skip(r as int),
{
    let mut i = from;
    while i < v.len() && whitespace(v[i])
        invariant
            from <= i <= v@.len(),
            forall|j: int| from <= j < i ==> #[trigger] crate::text::is_whitespace(v@[j]),
        decreases v@.len() - i,
    {
        i += 1;
    }
    proof {
        let s = v@.skip(from as int);
        assert forall|j: int| 0 <= j < i - from implies #[trigger] crate::text::is_whitespace(s[j]) by {
            assert(s[j] == v@[j + from]);
        }
        if i < v@.len() {
            assert(s[i - from] == v@[i as int]);
        }
        lemma_trim_start_skip(s, i - from);
        assert(s.subrange(i - from, s.len() as int) =~= v@.skip(i as int));
    }
    i
}

/// Where the payload of the reply lies among its characters.
fn payload_bounds(v: &Vec<char>) -> (r: Option<(usize, usize)>)
    ensures
        match reply_payload(v@) {
            Some(p) => r matches Some((a, e)) && a <= e <= v@.len() && p == v@.subrange(
                a as int,
                e as int,
            ),
            None => r is None,
        },
{
    let n = v.len();
    let esc = scan(v, 0, 0);
    assert(v@.skip(0) =~= v@);
    let start: usize;
    if esc < n && esc + 1 < n && v[esc + 1] == 'P' {
        start = esc + 2;
    } else if n > 0 && v[0] == '\u{90}' {
        start = 1;
        assert(v@.drop_first() =~= v@.skip(1));
    } else {
        return None;
    }
    let a1 = skip_whitespace(v, start);
    if a1 >= n || v[a1] != '>' {
        return None;
    }
    assert(v@.skip(a1 as int).drop_first() =~= v@.skip(a1 + 1));
    let a3 = skip_whitespace(v, a1 + 1);
    if a3 >= n || v[a3] != '|' {
        return None;
    }
    let a4 = a3 + 1;
    assert(v@.skip(a3 as int).drop_first() =~= v@.skip(a4 as int));
    let e = scan(v, a4, 1);
    assert(v@.skip(a4 as int).take(e - a4) =~= v@.subrange(a4 as int, e as int));
    Some((a4, e))
}

/// Where the name lies within the payload `v[a..e]`, and where the name's run ends.
fn name_bounds(v: &Vec<char>, a: usize, e: usize) -> (r: (usize, usize, usize))
    requires
        a <= e <= v@.len(),
    ensures
        a <= r.0 <= r.1 <= r.2 <= e,
        payload_name(v@.subrange(a as int, e as int)) == v@.subrange(r.0 as int, r.1 as int),
        r.2 - a == first_or_len(v@.subrange(a as int, e as int), ends_name()),
{
    let ghost p = v@.subrange(a as int, e as int);
    let stop0 = scan(v, a, 2);
    let stop = if stop0 < e { stop0 } else { e };
    proof {
        let s = v@.skip(a as int);
        crate::search::lemma_find_first_found(s, ends_name());
        crate::search::lemma_find_first_found(p, ends_name());
        assert forall|j: int| 0 <= j < p.len() implies p[j] == s[j] by {}
        if stop0 < e {
            lemma_find_first(p, ends_name(), stop0 - a);
        } else {
            assert forall|j: int| 0 <= j < e - a implies !ends_name()(#[trigger] p[j]) by {
                assert(p[j] == s[j]);
            }
            lemma_find_first(p, ends_name(), e - a);
        }
    }
    let run = vstd::slice::slice_subrange(v.as_slice(), a, stop);
    let (x, y) = trim_bounds(run);
    assert(p.take(stop - a) =~= run@);
    assert(run@.subrange(x as int, y as int) =~= v@.subrange(a + x, a + y));
    (a + x, a + y, stop)
}

/// The terminal name inside an XTVERSION reply, or `None` when the bytes are not one.
///
/// Replies arrive wrapped in `DCS > | <payload> ST`, but the payload itself is not
/// standardised: measurement showed `ghostty 1.3.1` and `kitty(0.48.2)`, so the name
/// is the leading run up to the first space or `(`.
pub fn terminal_name(reply: &str) -> (r: Option<&str>)
    ensures
        opt_view(r) == reply_name(reply@),
{
    let v = chars_of(reply);
    match payload_bounds(&v) {
        Some((a, e)) => {
            let (x, y, _) = name_bounds(&v, a, e);
            if x == y {
                None
            } else {
                Some(reply.substring_char(x, y))
            }
        },
        None => None,
    }
}

/// An optional string slice by its characters.
pub open spec fn opt_view(s: Option<&str>) -> Option<Seq<char>> {
    match s {
        Some(s) => Some(s@),
        None => None,
    }
}

/// The version inside an XTVERSION reply: what follows the name, with the parentheses
/// kitty puts around it removed.
pub fn terminal_version(reply: &str) -> (r: Option<&str>)
    ensures
        opt_view(r) == reply_version(reply@),
{
    let v = chars_of(reply);
    match payload_bounds(&v) {
        Some((a, e)) => {
            let ghost p = v@.subrange(a as int, e as int);
            let (_, _, stop) = name_bounds(&v, a, e);
            assert(p.skip(stop - a) =~= v@.subrange(stop as int, e as int));
            let rest = vstd::slice::slice_subrange(v.as_slice(), stop, e);
            let (x0, y0) = trim_bounds(rest);
            let mut x = stop + x0;
            let mut y = stop + y0;
            assert(rest@.subrange(x0 as int, y0 as int) =~= v@.subrange(x as int, y as int));
            let ghost r = v@.subrange(x as int, y as int);
            if x < y && v[x] == '(' {
                x = x + 1;
            }
            let ghost r1 = if r.len() > 0 && r[0] == '(' { r.drop_first() } else { r };
            assert(r1 =~= v@.subrange(x as int, y as int));
            if x < y && v[y - 1] == ')' {
                y = y - 1;
            }
            let ghost r2 = if r1.len() > 0 && r1.last() == ')' { r1.drop_last() } else { r1 };
            assert(r2 =~= v@.subrange(x as int, y as int));
            let inner = vstd::slice::slice_subrange(v.as_slice(), x, y);
            let (x1, y1) = trim_bounds(inner);
            assert(inner@.subrange(x1 as int, y1 as int) =~= v@.subrange(x + x1, x + y1));
            if x1 == y1 {
                None
            } else {
                Some(reply.substring_char(x + x1, x + y1))
            }
        },
        None => None,
    }
}

/// A name read from a reply is never empty, never holds the space or `(` that ends it,
/// and neither begins nor ends with whitespace.
pub proof fn names_hold_no_separator(s: Seq<char>)
    ensures
        reply_name(s) matches Some(n) ==> {
            &&& n.len() > 0
            &&& !n.contains(' ')
            &&& !n.contains('(')
            &&& !crate::text::is_whitespace(n[0])
            &&& !crate::text::is_whitespace(n.last())
        },
{
    if let Some(p) = reply_payload(s) {
        let stop = first_or_len(p, ends_name());
        lemma_find_first_found(p, ends_name());
        let run = p.take(stop);
        assert forall|j: int| 0 <= j < run.len() implies !ends_name()(#[trigger] run[j]) by {
            assert(run[j] == p[j]);
        }
        lemma_trim_shape(run);
        let n = trim(run);
        if n.contains(' ') {
            let i = choose|i: int| 0 <= i < n.len() && n[i] == ' ';
            let j = choose|j: int| 0 <= j < run.len() && run[j] == #[trigger] n[i];
            assert(!ends_name()(run[j]));
        }
        if n.contains('(') {
            let i = choose|i: int| 0 <= i < n.len() && n[i] == '(';
            let j = choose|j: int| 0 <= j < run.len() && run[j] == #[trigger] n[i];
            assert(!ends_name()(run[j]));
        }
    }
}

} // verus!
