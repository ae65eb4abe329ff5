//! Asking the terminal to name itself: the bytes that go out, and how to tell when the
//! answer is complete. The reading and writing itself happens outside the library.
use vstd::prelude::*;

verus! {

/// Whether a sequence goes straight to the terminal or has to be handed through tmux.
#[derive(Debug, Clone, Copy, PartialEq, Eq, Structural, Default)]
pub enum Route {
    #[default]
    Direct,
    ThroughTmux,
}

/// `DCS tmux;`, which opens the passthrough wrapper.
pub open spec fn tmux_open() -> Seq<u8> {
    seq![0x1bu8, 0x50u8, 0x74u8, 0x6du8, 0x75u8, 0x78u8, 0x3bu8]
}

/// `ST`, the string terminator `ESC \`.
pub open spec fn string_terminator() -> Seq<u8> {
    seq![0x1bu8, 0x5cu8]
}

/// One byte of the payload as the wrapper carries it: ESC doubled, anything else as is.
pub open spec fn doubled_byte(b: u8) -> Seq<u8> {
    if b == 0x1b {
        seq![0x1bu8, 0x1bu8]
    } else {
        seq![b]
    }
}

/// The payload with every ESC doubled.
pub open spec fn doubled(b: Seq<u8>) -> Seq<u8>
    decreases b.len(),
{
    if b.len() == 0 {
        Seq::empty()
    } else {
        doubled_byte(b[0]) + doubled(b.drop_first())
    }
}

/// Undoes [`doubled`]: a doubled ESC becomes one.
pub open spec fn undoubled(s: Seq<u8>) -> Seq<u8>
    decreases s.len(),
{
    if s.len() == 0 {
        Seq::empty()
    } else if s.len() >= 2 && s[0] == 0x1b && s[1] == 0x1b {
        seq![0x1bu8] + undoubled(s.skip(2))
    } else {
        seq![s[0]] + undoubled(s.drop_first())
    }
}

/// What `through_tmux` sends for `b`.
pub open spec fn tmux_wrapped(b: Seq<u8>) -> Seq<u8> {
    tmux_open() + doubled(b) + string_terminator()
}

proof fn lemma_doubled_append(a: Seq<u8>, b: Seq<u8>)
    ensures
        doubled(a + b) == doubled(a) + doubled(b),
    decreases a.len(),
{
    if a.len() == 0 {
        assert(a + b =~= b);
        assert(doubled(a) + doubled(b) =~= doubled(b));
    } else {
        assert((a + b).drop_first() =~= a.drop_first() + b);
        lemma_doubled_append(a.drop_first(), b);
        assert(doubled(a + b) =~= doubled(a) + doubled(b));
    }
}

/// Undoing the doubling gives back the payload: the wrapper loses nothing.
pub proof fn lemma_undoubled_doubled(b: Seq<u8>)
    ensures
        undoubled(doubled(b)) == b,
    decreases b.len(),
{
    if b.len() > 0 {
        let rest = b.drop_first();
        lemma_undoubled_doubled(rest);
        let d = doubled(b);
        if b[0] == 0x1b {
            assert(d.skip(2) =~= doubled(rest));
            assert(undoubled(d) =~= b);
        } else {
            assert(d.drop_first() =~= doubled(rest));
            assert(undoubled(d) =~= b);
        }
    }
}

/// Wraps a sequence so that tmux passes it to the terminal it is drawn in instead of
/// interpreting it.
///
/// tmux drops escape sequences it does not recognise rather than forwarding them, which
/// is every notification dialect. The wrapper is `DCS tmux; ... ST` with each ESC in the
/// payload doubled, so that the inner sequence cannot terminate the outer one.
///
/// It only works where tmux's own `allow-passthrough` is on. Where it is off the wrapped
/// sequence goes nowhere, which is the same place an unwrapped one went, so wrapping
/// costs nothing and is not worth trying to detect first.
pub fn through_tmux(bytes: &[u8]) -> (out: Vec<u8>)
    ensures
        out@ == tmux_wrapped(bytes@),
{
    let mut out: Vec<u8> = Vec::new();
    out.push(0x1b);
    out.push(0x50);
    out.push(0x74);
    out.push(0x6d);
    out.push(0x75);
    out.push(0x78);
    out.push(0x3b);
    assert(out@ =~= tmux_open());
    assert(bytes@.take(0) =~= Seq::<u8>::empty());
    let mut i: usize = 0;
    while i < bytes.len()
        invariant
            i <= bytes@.len(),
            out@ == tmux_open() + doubled(bytes@.take(i as int)),
        decreases bytes@.len() - i,
    {
        let byte = bytes[i];
        if byte == 0x1b {
            out.push(0x1b);
        }
        out.push(byte);
        proof {
            assert(bytes@.take(i + 1) =~= bytes@.take(i as int) + seq![byte]);
            lemma_doubled_append(bytes@.take(i as int), seq![byte]);
            assert(doubled(seq![byte]) =~= doubled_byte(byte)) by {
                assert(seq![byte].drop_first() =~= Seq::<u8>::empty());
                reveal_with_fuel(doubled, 2);
            }
        }
        i += 1;
        assert(out@ =~= tmux_open() + doubled(bytes@.take(i as int)));
    }
    out.push(0x1b);
    out.push(0x5c);
    assert(bytes@.take(i as int) =~= bytes@);
    assert(out@ =~= tmux_wrapped(bytes@));
    out
}

/// The bytes that ask for XTVERSION, with a DA1 query riding behind so that a terminal
/// that ignores the first still ends the conversation.
pub open spec fn xtversion_query_bytes() -> Seq<u8> {
    seq![0x1bu8, 0x5bu8, 0x3eu8, 0x30u8, 0x71u8, 0x1bu8, 0x5bu8, 0x63u8]
}

/// What goes out to ask the terminal its name, wrapped for tmux when the route needs it.
pub fn xtversion_query(route: Route) -> (out: Vec<u8>)
    ensures
        out@ == match route {
            Route::Direct => xtversion_query_bytes(),
            Route::ThroughTmux => tmux_wrapped(xtversion_query_bytes()),
        },
{
    let query: Vec<u8> = vec![0x1b, 0x5b, 0x3e, 0x30, 0x71, 0x1b, 0x5b, 0x63];
    assert(query@ =~= xtversion_query_bytes());
    match route {
        Route::Direct => query,
        Route::ThroughTmux => through_tmux(query.as_slice()),
    }
}

/// A byte that may stand between `CSI ?` and the final `c` of a DA1 reply.
pub open spec fn da1_parameter(b: u8) -> bool {
    (0x30 <= b <= 0x39) || b == 0x3b || b == 0x3f
}

/// The buffer ends in a primary device attributes reply, `CSI ? ... c`: an ESC, a `[`,
/// then digits, `;` and `?` only, then `c`.
pub open spec fn is_da1_ending(reply: Seq<u8>) -> bool {
    &&& reply.len() > 0
    &&& reply.last() == 0x63
    &&& exists|k: int|
        0 <= k && k + 2 <= reply.len() - 1 && #[trigger] reply[k] == 0x1b && reply[k + 1] == 0x5b
            && forall|j: int| k + 2 <= j < reply.len() - 1 ==> da1_parameter(#[trigger] reply[j])
}

/// Whether the buffer ends in a primary device attributes reply, `CSI ? ... c`.
pub fn ends_with_da1(reply: &[u8]) -> (r: bool)
    ensures
        r == is_da1_ending(reply@),
{
    let n = reply.len();
    if n == 0 || reply[n - 1] != 0x63 {
        return false;
    }
    let head = n - 1;
    // The last ESC before the final byte.
    let mut start = head;
    while start > 0 && reply[start - 1] != 0x1b
        invariant
            start <= head,
            head == n - 1,
            n == reply@.len(),
            forall|j: int| start <= j < head ==> reply@[j] != 0x1b,
        decreases start,
    {
        start -= 1;
    }
    if start == 0 {
        // No ESC in the head at all.
        assert forall|k: int| 0 <= k && k + 2 <= reply@.len() - 1 implies #[trigger] reply@[k] != 0x1b by {}
        return false;
    }
    let esc = start - 1;
    if esc + 1 >= head || reply[esc + 1] != 0x5b {
        proof {
            assert forall|k: int|
                0 <= k && k + 2 <= reply@.len() - 1 && #[trigger] reply@[k] == 0x1b && reply@[k + 1]
                    == 0x5b implies !(forall|j: int|
                k + 2 <= j < reply@.len() - 1 ==> da1_parameter(#[trigger] reply@[j])) by {
                if k < esc {
                    if k + 1 == esc {
                        assert(reply@[k + 1] != 0x1b);
                    } else {
                        assert(!da1_parameter(reply@[esc as int]));
                    }
                }
            }
        }
        return false;
    }
    let mut j = esc + 2;
    while j < head
        invariant
            esc + 2 <= j <= head,
            head == n - 1,
            n == reply@.len(),
            forall|m: int| esc + 2 <= m < j ==> da1_parameter(#[trigger] reply@[m]),
            forall|m: int| esc < m < head ==> reply@[m] != 0x1b,
            reply@[esc as int] == 0x1b,
            reply@[esc + 1] == 0x5b,
            esc + 1 < head,
        decreases head - j,
    {
        let b = reply[j];
        if !((0x30 <= b && b <= 0x39) || b == 0x3b || b == 0x3f) {
            proof {
                assert forall|k: int|
                    0 <= k && k + 2 <= reply@.len() - 1 && #[trigger] reply@[k] == 0x1b && reply@[k
                        + 1] == 0x5b implies !(forall|m: int|
                    k + 2 <= m < reply@.len() - 1 ==> da1_parameter(#[trigger] reply@[m])) by {
                    if k < esc {
                        if k + 1 == esc {
                            assert(reply@[k + 1] != 0x1b);
                        } else {
                            assert(!da1_parameter(reply@[esc as int]));
                        }
                    } else if k > esc {
                        assert(reply@[k] != 0x1b);
                    } else {
                        assert(!da1_parameter(reply@[j as int]));
                    }
                }
            }
            return false;
        }
        j += 1;
    }
    assert(reply@[esc as int] == 0x1b);
    true
}

/// The terminal's read timeout as termios counts it: tenths of a second, at least one and
/// at most what a byte holds.
pub fn read_timeout_tenths(millis: u128) -> (r: u8)
    ensures
        r as int == if millis / 100 < 1 {
            1
        } else if millis / 100 > 255 {
            255
        } else {
            millis / 100
        },
{
    let tenths = millis / 100;
    if tenths < 1 {
        1
    } else if tenths > 255 {
        255
    } else {
        tenths as u8
    }
}

/// The tmux wrapper loses nothing: with `DCS tmux;` and the final `ST` taken off and
/// every doubled ESC made single again, what was wrapped comes back unchanged.
pub proof fn tmux_wrapping_is_lossless(b: Seq<u8>)
    ensures
        undoubled(tmux_wrapped(b).subrange(7, tmux_wrapped(b).len() - 2)) == b,
{
    assert(tmux_wrapped(b).subrange(7, tmux_wrapped(b).len() - 2) =~= doubled(b));
    lemma_undoubled_doubled(b);
}

} // verus!
