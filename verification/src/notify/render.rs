//! Turning a notification into the bytes a dialect expects. Pure, so every dialect can
//! be checked byte for byte without a terminal.
use vstd::prelude::*;

use crate::text::{
    chars_of, control, is_control, lemma_trim_of_trimmed, lemma_trim_shape, push_char, push_str,
    string_of, trim, trim_bounds,
};
use crate::search::{find_first, lemma_find_first};
use crate::Sequence;
use vstd::utf8::encode_utf8;

verus! {

broadcast use vstd::string::group_string_axioms;

/// What one character of a notification becomes: newlines and tabs turn into spaces,
/// other control characters vanish, everything else stays.
pub open spec fn cleaned_char(c: char) -> Seq<char> {
    if c == '\n' || c == '\r' || c == '\t' {
        seq![' ']
    } else if is_control(c) {
        Seq::empty()
    } else {
        seq![c]
    }
}

/// Every character of `s` put through [`cleaned_char`].
pub open spec fn cleaned(s: Seq<char>) -> Seq<char>
    decreases s.len(),
{
    if s.len() == 0 {
        Seq::empty()
    } else {
        cleaned(s.drop_last()) + cleaned_char(s.last())
    }
}

/// What [`sanitize`] makes of `s`.
pub open spec fn sanitized(s: Seq<char>) -> Seq<char> {
    trim(cleaned(s))
}

/// Text with anything that could steer the terminal removed.
///
/// A notification body is often a fragment of someone else's output — a build log, a
/// command's last line — so it has to be assumed hostile. Control characters would end
/// the escape sequence early and leave the rest to be executed as commands. Newlines and
/// tabs become spaces because a notification is a line of text, not a document.
pub fn sanitize(text: &str) -> (r: String)
    ensures
        r@ == sanitized(text@),
{
    let v = chars_of(text);
    let mut out: Vec<char> = Vec::new();
    let mut i: usize = 0;
    while i < v.len()
        invariant
            i <= v@.len(),
            v@ == text@,
            out@ == cleaned(v@.take(i as int)),
        decreases v@.len() - i,
    {
        let c = v[i];
        if c == '\n' || c == '\r' || c == '\t' {
            out.push(' ');
        } else if !control(c) {
            out.push(c);
        }
        proof {
            let t = v@.take(i + 1);
            assert(t.drop_last() =~= v@.take(i as int));
            assert(t.last() == c);
        }
        i += 1;
        assert(out@ =~= cleaned(v@.take(i as int)));
    }
    assert(v@.take(i as int) =~= v@);
    let (a, b) = trim_bounds(out.as_slice());
    let kept = vstd::slice::slice_subrange(out.as_slice(), a, b);
    string_of(kept)
}

/// The digit of the standard base64 alphabet for a six-bit value.
pub open spec fn base64_digit(v: int) -> char {
    if v < 26 {
        ((v + 65) as u8) as char
    } else if v < 52 {
        ((v - 26 + 97) as u8) as char
    } else if v < 62 {
        ((v - 52 + 48) as u8) as char
    } else if v == 62 {
        '+'
    } else {
        '/'
    }
}

/// One group of up to three bytes in base64: four characters, with `=` standing in for
/// each character that would only carry padding bits.
pub open spec fn base64_group(c: Seq<u8>) -> Seq<char> {
    let b0 = c[0] as int;
    let b1 = if c.len() > 1 { c[1] as int } else { 0 };
    let b2 = if c.len() > 2 { c[2] as int } else { 0 };
    let s0 = b0 / 4;
    let s1 = (b0 % 4) * 16 + b1 / 16;
    let s2 = (b1 % 16) * 4 + b2 / 64;
    let s3 = b2 % 64;
    seq![
        base64_digit(s0),
        base64_digit(s1),
        if c.len() > 1 { base64_digit(s2) } else { '=' },
        if c.len() > 2 { base64_digit(s3) } else { '=' },
    ]
}

/// Standard base64 (RFC 4648, section 4) with padding.
pub open spec fn base64_of(b: Seq<u8>) -> Seq<char>
    decreases b.len(),
{
    if b.len() == 0 {
        Seq::empty()
    } else if b.len() <= 3 {
        base64_group(b)
    } else {
        base64_group(b.take(3)) + base64_of(b.skip(3))
    }
}

fn base64_digit_of(v: u8) -> (c: char)
    requires
        v < 64,
    ensures
        c == base64_digit(v as int),
{
    if v < 26 {
        (v + 65) as char
    } else if v < 52 {
        (v - 26 + 97) as char
    } else if v < 62 {
        (v - 52 + 48) as char
    } else if v == 62 {
        '+'
    } else {
        '/'
    }
}

/// The base64 characters of `input`.
pub fn base64_chars(input: &[u8]) -> (out: Vec<char>)
    ensures
        out@ == base64_of(input@),
{
    let n = input.len();
    let mut out: Vec<char> = Vec::new();
    let mut i: usize = 0;
    assert(input@.skip(0) =~= input@);
    while i < n
        invariant
            n == input@.len(),
            i <= n,
            base64_of(input@) == out@ + base64_of(input@.skip(i as int)),
        decreases n - i,
    {
        let rest = n - i;
        let b0 = input[i];
        let b1 = if rest > 1 { input[i + 1] } else { 0 };
        let b2 = if rest > 2 { input[i + 2] } else { 0 };
        let s0 = b0 / 4;
        let s1 = (b0 % 4) * 16 + b1 / 16;
        let s2 = (b1 % 16) * 4 + b2 / 64;
        let s3 = b2 % 64;
        let ghost before = out@;
        out.push(base64_digit_of(s0));
        out.push(base64_digit_of(s1));
        if rest > 1 {
            out.push(base64_digit_of(s2));
        } else {
            out.push('=');
        }
        if rest > 2 {
            out.push(base64_digit_of(s3));
        } else {
            out.push('=');
        }
        proof {
            let s = input@.skip(i as int);
            let g = if s.len() <= 3 { s } else { s.take(3) };
            assert(g[0] == b0);
            assert(g.len() > 1 ==> g[1] == b1);
            assert(g.len() > 2 ==> g[2] == b2);
            assert(out@ =~= before + base64_group(g));
            if s.len() <= 3 {
                assert(base64_of(s) == base64_group(s));
            } else {
                assert(base64_of(s) == base64_group(s.take(3)) + base64_of(s.skip(3)));
                assert(s.skip(3) =~= input@.skip(i + 3));
            }
        }
        if rest <= 3 {
            i = n;
            assert(input@.skip(i as int) =~= Seq::<u8>::empty());
        } else {
            i = i + 3;
        }
    }
    assert(out@ =~= out@ + Seq::<char>::empty());
    out
}

/// Standard base64, written out rather than pulled in: it is the only encoding this
/// crate needs and it is shorter than the dependency would be.
pub fn base64(input: &[u8]) -> (r: String)
    ensures
        r@ == base64_of(input@),
{
    let v = base64_chars(input);
    string_of(v.as_slice())
}

/// `s` with every trailing `=` removed.
pub open spec fn without_padding(s: Seq<char>) -> Seq<char>
    decreases s.len(),
{
    if s.len() > 0 && s.last() == '=' {
        without_padding(s.drop_last())
    } else {
        s
    }
}

/// The URL-safe base64 alphabet's spelling of a standard base64 character.
pub open spec fn url_safe(c: char) -> char {
    if c == '+' {
        '-'
    } else if c == '/' {
        '_'
    } else {
        c
    }
}

/// What [`encode_id`] makes of a name: its UTF-8 bytes in unpadded URL-safe base64.
pub open spec fn encoded_id(id: Seq<char>) -> Seq<char> {
    without_padding(base64_of(encode_utf8(id))).map_values(|c: char| url_safe(c))
}

proof fn lemma_without_padding_cut(s: Seq<char>, k: int)
    requires
        0 <= k <= s.len(),
        forall|j: int| k <= j < s.len() ==> #[trigger] s[j] == '=',
        k == 0 || s[k - 1] != '=',
    ensures
        without_padding(s) == s.take(k),
    decreases s.len() - k,
{
    if k == s.len() {
        assert(s.take(k) =~= s);
    } else {
        let t = s.drop_last();
        assert(s.last() == '=');
        assert forall|j: int| k <= j < t.len() implies #[trigger] t[j] == '=' by {
            assert(s[j] == '=');
        }
        lemma_without_padding_cut(t, k);
        assert(t.take(k) =~= s.take(k));
    }
}

/// The caller's name for a notification, encoded so it cannot be read as anything but a
/// name.
///
/// Metadata fields are separated by `:` and closed by `;`, so a name containing either
/// would rewrite the escape around it. Encoding sidesteps the question entirely and
/// leaves the caller free to use whatever names its own code already has. The URL
/// alphabet, unpadded, because `+`, `/` and `=` have no attested meaning inside this
/// field.
pub fn encode_id(id: &str) -> (r: String)
    ensures
        r@ == encoded_id(id@),
{
    let digits = base64_chars(id.as_bytes());
    let mut k = digits.len();
    while k > 0 && digits[k - 1] == '='
        invariant
            k <= digits@.len(),
            forall|j: int| k <= j < digits@.len() ==> #[trigger] digits@[j] == '=',
        decreases k,
    {
        k -= 1;
    }
    proof { lemma_without_padding_cut(digits@, k as int); }
    let mut out = String::new();
    let mut i: usize = 0;
    while i < k
        invariant
            i <= k <= digits@.len(),
            out@ == digits@.take(i as int).map_values(|c: char| url_safe(c)),
        decreases k - i,
    {
        let c = digits[i];
        let d = if c == '+' { '-' } else if c == '/' { '_' } else { c };
        push_char(&mut out, d);
        i += 1;
        assert(out@ =~= digits@.take(i as int).map_values(|c: char| url_safe(c)));
    }
    out
}

/// Opens an OSC 9 notification.
pub const OSC9_OPEN: &'static str = "\x1b]9;";

/// Opens an OSC 777 notification.
pub const OSC777_OPEN: &'static str = "\x1b]777;notify;";

/// Opens one OSC 99 chunk, up to its id.
pub const OSC99_OPEN: &'static str = "\x1b]99;i=";

/// BEL, which closes OSC 9 and OSC 777.
pub const BEL: &'static str = "\x07";

/// ST, which closes each OSC 99 chunk.
pub const ST: &'static str = "\x1b\\";

/// One OSC 99 chunk: `OSC 99 ; i=<id>:<metadata>:e=1 ; <base64 payload> ST`.
pub open spec fn osc99_chunk_text(id: Seq<char>, metadata: Seq<char>, payload: Seq<char>) -> Seq<
    char,
> {
    OSC99_OPEN@ + id + ":"@ + metadata + ":e=1;"@ + base64_of(encode_utf8(payload)) + ST@
}

/// The text of a notification in the given dialect, before it is encoded as UTF-8.
///
/// `title`, `body` and `id` are taken as given; [`bytes`] sanitises and encodes them
/// first. `unnamed` is the id used when the caller named none.
pub open spec fn dialect_text(
    sequence: Sequence,
    title: Option<Seq<char>>,
    body: Seq<char>,
    id: Option<Seq<char>>,
    unnamed: Seq<char>,
) -> Seq<char> {
    match sequence {
        Sequence::Osc9 => OSC9_OPEN@ + body + BEL@,
        Sequence::Osc777 => match title {
            Some(t) => OSC777_OPEN@ + t + ";"@ + body + BEL@,
            None => OSC777_OPEN@ + body + BEL@,
        },
        Sequence::Osc99 => {
            let i = match id {
                Some(i) => i,
                None => unnamed,
            };
            match title {
                Some(t) => osc99_chunk_text(i, "d=0:p=title"@, t) + osc99_chunk_text(
                    i,
                    "d=1:p=body"@,
                    body,
                ),
                None => osc99_chunk_text(i, "d=1"@, body),
            }
        },
    }
}

/// A title after sanitising, where anything is left of it.
pub open spec fn usable_title(title: Option<Seq<char>>) -> Option<Seq<char>> {
    match title {
        Some(t) => if sanitized(t).len() > 0 { Some(sanitized(t)) } else { None },
        None => None,
    }
}

/// The characters [`bytes`] sends, before UTF-8 encoding.
pub open spec fn rendered(
    sequence: Sequence,
    title: Option<Seq<char>>,
    body: Seq<char>,
    id: Option<Seq<char>>,
    unnamed: Seq<char>,
) -> Seq<char> {
    dialect_text(
        sequence,
        usable_title(title),
        sanitized(body),
        match id {
            Some(i) => Some(encoded_id(i)),
            None => None,
        },
        unnamed,
    )
}

fn osc99_chunk(out: &mut String, id: &str, metadata: &str, payload: &str)
    ensures
        final(out)@ == old(out)@ + osc99_chunk_text(id@, metadata@, payload@),
{
    push_str(out, OSC99_OPEN);
    push_str(out, id);
    push_str(out, ":");
    push_str(out, metadata);
    push_str(out, ":e=1;");
    let encoded = base64(payload.as_bytes());
    push_str(out, encoded.as_str());
    push_str(out, ST);
    assert(final(out)@ =~= old(out)@ + osc99_chunk_text(id@, metadata@, payload@));
}

/// The UTF-8 bytes of a string.
fn utf8_of(s: &str) -> (r: Vec<u8>)
    ensures
        r@ == encode_utf8(s@),
{
    vstd::slice::slice_to_vec(s.as_bytes())
}

/// The bytes that ask the terminal to raise this notification.
///
/// `title` and `id` are only honoured by dialects that can carry them; the caller is
/// expected to have folded the title into the body and given up on the id otherwise.
/// Title and body are sanitised here rather than at the boundary so no route to the wire
/// can skip it.
///
/// OSC 99 sends a title and a body as two separate escapes and joins them into one
/// notification by their shared id, so an id is unavoidable even when the caller named
/// none: `unnamed` is the one used then, and it has to differ every time, since kitty
/// replaces a notification arriving under an id it has already seen.
pub fn bytes(
    sequence: Sequence,
    title: Option<&str>,
    body: &str,
    id: Option<&str>,
    unnamed: &str,
) -> (r: Vec<u8>)
    ensures
        r@ == encode_utf8(
            rendered(
                sequence,
                crate::detect::env::opt_str(title),
                body@,
                crate::detect::env::opt_str(id),
                unnamed@,
            ),
        ),
{
    let ghost title0 = crate::detect::env::opt_str(title);
    let ghost body0 = body@;
    let title: Option<String> = match title {
        Some(t) => {
            let s = sanitize(t);
            if s.as_str().is_empty() {
                None
            } else {
                Some(s)
            }
        },
        None => None,
    };
    let body = sanitize(body);
    let mut out = String::new();
    match sequence {
        // OSC 9 ; <body> BEL
        Sequence::Osc9 => {
            push_str(&mut out, OSC9_OPEN);
            push_str(&mut out, body.as_str());
            push_str(&mut out, BEL);
        },
        // OSC 777 ; notify ; <title> ; <body> BEL
        //
        // With no title the body takes the title's place: the field is what every
        // implementation displays most prominently, and a notification whose loudest
        // line is empty reads as broken. No terminal in the table reaches this, an
        // untitled notification going out as OSC 9 wherever OSC 777 is accepted.
        Sequence::Osc777 => {
            push_str(&mut out, OSC777_OPEN);
            match &title {
                Some(t) => {
                    push_str(&mut out, t.as_str());
                    push_str(&mut out, ";");
                },
                None => {},
            }
            push_str(&mut out, body.as_str());
            push_str(&mut out, BEL);
        },
        // OSC 99 ; <metadata> ; <payload> ST, once per field. The payload is base64 so
        // that no byte of it can be read as a metadata separator, and `d=0` on the first
        // chunk tells the terminal to hold the notification until the second one arrives.
        Sequence::Osc99 => {
            let named: String = match id {
                Some(i) => encode_id(i),
                None => unnamed.to_owned(),
            };
            match &title {
                Some(t) => {
                    osc99_chunk(&mut out, named.as_str(), "d=0:p=title", t.as_str());
                    osc99_chunk(&mut out, named.as_str(), "d=1:p=body", body.as_str());
                },
                // `p` defaults to title, which is the field to use when there is only one.
                None => {
                    osc99_chunk(&mut out, named.as_str(), "d=1", body.as_str());
                },
            }
        },
    }
    assert(out@ =~= rendered(sequence, title0, body0, crate::detect::env::opt_str(id), unnamed@));
    utf8_of(out.as_str())
}

/// The decimal digit for a value below ten.
pub open spec fn digit_char(d: nat) -> char {
    ((d + 48) as u8) as char
}

/// `n` written in decimal, without leading zeros.
pub open spec fn decimal(n: nat) -> Seq<char>
    decreases n,
{
    if n < 10 {
        seq![digit_char(n)]
    } else {
        decimal(n / 10).push(digit_char(n % 10))
    }
}

/// The number a string of decimal digits spells.
pub open spec fn decimal_value(s: Seq<char>) -> nat
    decreases s.len(),
{
    if s.len() == 0 {
        0
    } else {
        decimal_value(s.drop_last()) * 10 + ((s.last() as nat) - 48) as nat
    }
}

/// Reading a number's decimal spelling gives the number back, so distinct numbers are
/// spelled differently.
pub proof fn lemma_decimal_value(n: nat)
    ensures
        decimal_value(decimal(n)) == n,
    decreases n,
{
    let d = n % 10;
    assert(((d + 48) as u8) as char as nat == d + 48);
    if n >= 10 {
        lemma_decimal_value(n / 10);
        let s = decimal(n);
        assert(s.drop_last() =~= decimal(n / 10));
        assert(s.last() == digit_char(d));
        assert(decimal_value(s) == decimal_value(s.drop_last()) * 10 + ((s.last() as nat) - 48) as nat);
        assert(n == (n / 10) * 10 + d);
    } else {
        let s = decimal(n);
        assert(s.drop_last() =~= Seq::<char>::empty());
        assert(s.last() == digit_char(d));
        assert(decimal_value(s.drop_last()) == 0);
    }
}

/// Appends `n` in decimal.
pub fn push_decimal(out: &mut String, n: u64)
    ensures
        final(out)@ == old(out)@ + decimal(n as nat),
    decreases n,
{
    if n >= 10 {
        push_decimal(out, n / 10);
    }
    let d = (n % 10) as u8;
    crate::text::push_char(out, (d + 48) as char);
    assert(final(out)@ =~= old(out)@ + decimal(n as nat));
}

/// The id an unnamed OSC 99 notification goes out under: `peal-<process>-<serial>`, which
/// no other notification reuses as long as each process counts its serials up.
pub open spec fn anonymous_id_text(process: nat, serial: nat) -> Seq<char> {
    "peal-"@ + decimal(process) + "-"@ + decimal(serial)
}

/// The id for the `serial`th unnamed notification sent by process `process`.
pub fn anonymous_id(process: u32, serial: u64) -> (r: String)
    ensures
        r@ == anonymous_id_text(process as nat, serial as nat),
{
    let mut out = String::new();
    push_str(&mut out, "peal-");
    push_decimal(&mut out, process as u64);
    push_str(&mut out, "-");
    push_decimal(&mut out, serial);
    out
}

/// Hands out the ids unnamed OSC 99 notifications go out under, for one process: each id
/// differs from every one this source handed out before it.
pub struct UnnamedIds {
    process: u32,
    issued: u64,
}

impl UnnamedIds {
    /// The process the ids are for.
    pub closed spec fn process(&self) -> nat {
        self.process as nat
    }

    /// How many ids have been handed out since the count last started over.
    pub closed spec fn issued(&self) -> nat {
        self.issued as nat
    }

    /// A source for process `process` that has handed out nothing yet.
    pub fn new(process: u32) -> (r: Self)
        ensures
            r.process() == process,
            r.issued() == 0,
    {
        UnnamedIds { process, issued: 0 }
    }

    /// The next id: `peal-<process>-<serial>`, with the serial counting up from 0 and
    /// starting over after the largest `u64`. It differs from every id handed out before
    /// it since the count started.
    pub fn next(&mut self) -> (r: String)
        ensures
            r@ == anonymous_id_text(old(self).process(), old(self).issued()),
            final(self).process() == old(self).process(),
            final(self).issued() == (if old(self).issued() == u64::MAX as nat {
                0
            } else {
                old(self).issued() + 1
            }),
            forall|k: nat|
                k < old(self).issued() ==> #[trigger] anonymous_id_text(old(self).process(), k)
                    != r@,
    {
        let r = anonymous_id(self.process, self.issued);
        proof {
            assert forall|k: nat| k < old(self).issued() implies #[trigger] anonymous_id_text(
                old(self).process(),
                k,
            ) != r@ by {
                anonymous_ids_differ(self.process as nat, k, self.issued as nat);
            }
        }
        self.issued = if self.issued == u64::MAX {
            0
        } else {
            self.issued + 1
        };
        r
    }
}

/// Two unnamed notifications of one process never share an id: an id kitty has seen
/// before would replace what it showed under it.
pub proof fn anonymous_ids_differ(process: nat, first: nat, second: nat)
    requires
        first != second,
    ensures
        anonymous_id_text(process, first) != anonymous_id_text(process, second),
{
    let prefix = "peal-"@ + decimal(process) + "-"@;
    let a = anonymous_id_text(process, first);
    let b = anonymous_id_text(process, second);
    if a == b {
        assert(a.skip(prefix.len() as int) =~= decimal(first));
        assert(b.skip(prefix.len() as int) =~= decimal(second));
        lemma_decimal_value(first);
        lemma_decimal_value(second);
    }
}

proof fn lemma_cleaned_has_no_controls(s: Seq<char>)
    ensures
        forall|i: int| 0 <= i < cleaned(s).len() ==> !is_control(#[trigger] cleaned(s)[i]),
    decreases s.len(),
{
    if s.len() > 0 {
        lemma_cleaned_has_no_controls(s.drop_last());
        let a = cleaned(s.drop_last());
        let b = cleaned_char(s.last());
        assert forall|i: int| 0 <= i < cleaned(s).len() implies !is_control(#[trigger] cleaned(s)[i]) by {
            if i >= a.len() {
                assert(cleaned(s)[i] == b[i - a.len()]);
            } else {
                assert(cleaned(s)[i] == a[i]);
            }
        }
    }
}

proof fn lemma_cleaned_keeps_clean_text(s: Seq<char>)
    requires
        forall|i: int| 0 <= i < s.len() ==> !is_control(#[trigger] s[i]),
    ensures
        cleaned(s) == s,
    decreases s.len(),
{
    if s.len() > 0 {
        assert forall|i: int| 0 <= i < s.drop_last().len() implies !is_control(
            #[trigger] s.drop_last()[i],
        ) by {
            assert(s.drop_last()[i] == s[i]);
        }
        lemma_cleaned_keeps_clean_text(s.drop_last());
        assert(!is_control(s[s.len() - 1]));
        assert(cleaned(s) =~= s);
    }
}

/// Nothing [`sanitize`] lets through is a control character, and what it lets through
/// neither begins nor ends with whitespace: no byte of it can end an escape sequence.
pub proof fn sanitized_is_inert(s: Seq<char>)
    ensures
        forall|i: int| 0 <= i < sanitized(s).len() ==> !is_control(#[trigger] sanitized(s)[i]),
        sanitized(s).len() > 0 ==> !crate::text::is_whitespace(sanitized(s)[0]),
        sanitized(s).len() > 0 ==> !crate::text::is_whitespace(sanitized(s).last()),
{
    lemma_cleaned_has_no_controls(s);
    lemma_trim_shape(cleaned(s));
    assert forall|i: int| 0 <= i < sanitized(s).len() implies !is_control(#[trigger] sanitized(s)[i]) by {
        let j = choose|j: int| 0 <= j < cleaned(s).len() && cleaned(s)[j] == sanitized(s)[i];
        assert(!is_control(cleaned(s)[j]));
    }
}

/// Sanitising what was already sanitised changes nothing.
pub proof fn sanitize_is_idempotent(s: Seq<char>)
    ensures
        sanitized(sanitized(s)) == sanitized(s),
{
    let t = sanitized(s);
    sanitized_is_inert(s);
    lemma_cleaned_keeps_clean_text(t);
    lemma_trim_of_trimmed(t);
}

/// A character of the standard base64 alphabet.
pub open spec fn is_base64_digit(c: char) -> bool {
    ('A' <= c <= 'Z') || ('a' <= c <= 'z') || ('0' <= c <= '9') || c == '+' || c == '/'
}

/// A character of the URL-safe base64 alphabet.
pub open spec fn is_url_safe(c: char) -> bool {
    ('A' <= c <= 'Z') || ('a' <= c <= 'z') || ('0' <= c <= '9') || c == '-' || c == '_'
}

proof fn lemma_base64_digit(v: int)
    requires
        0 <= v < 64,
    ensures
        is_base64_digit(base64_digit(v)),
{
    if v < 26 {
        assert(((v + 65) as u8) as char as int == v + 65);
    } else if v < 52 {
        assert(((v - 26 + 97) as u8) as char as int == v - 26 + 97);
    } else if v < 62 {
        assert(((v - 52 + 48) as u8) as char as int == v - 52 + 48);
    }
}

/// base64 text is digits followed by padding: the returned count of digits is where the
/// `=` begin.
proof fn lemma_base64_shape(b: Seq<u8>) -> (k: int)
    ensures
        k == digit_count(b.len() as int),
        base64_of(b).len() == 4 * ((b.len() + 2) / 3),
        0 <= k <= base64_of(b).len(),
        forall|i: int| 0 <= i < k ==> is_base64_digit(#[trigger] base64_of(b)[i]),
        forall|i: int| k <= i < base64_of(b).len() ==> #[trigger] base64_of(b)[i] == '=',
    decreases b.len(),
{
    if b.len() == 0 {
        0
    } else {
        let g = if b.len() <= 3 { b } else { b.take(3) };
        let b0 = g[0] as int;
        let b1 = if g.len() > 1 { g[1] as int } else { 0 };
        let b2 = if g.len() > 2 { g[2] as int } else { 0 };
        lemma_base64_digit(b0 / 4);
        lemma_base64_digit((b0 % 4) * 16 + b1 / 16);
        lemma_base64_digit((b1 % 16) * 4 + b2 / 64);
        lemma_base64_digit(b2 % 64);
        let group = base64_group(g);
        if b.len() <= 3 {
            let k: int = b.len() as int + 1;
            assert forall|i: int| 0 <= i < k implies is_base64_digit(#[trigger] base64_of(b)[i]) by {
                assert(base64_of(b) == group);
            }
            k
        } else {
            let rest = b.skip(3);
            let k = lemma_base64_shape(rest);
            assert(base64_of(b) == group + base64_of(rest));
            assert(digit_count(b.len() as int) == 4 + digit_count(rest.len() as int)) by {
                assert(b.len() as int == rest.len() as int + 3);
            }
            assert forall|i: int| 0 <= i < k + 4 implies is_base64_digit(#[trigger] base64_of(b)[i]) by {
                if i >= 4 {
                    assert(base64_of(b)[i] == base64_of(rest)[i - 4]);
                }
            }
            assert forall|i: int| k + 4 <= i < base64_of(b).len() implies #[trigger] base64_of(b)[i]
                == '=' by {
                assert(base64_of(b)[i] == base64_of(rest)[i - 4]);
            }
            k + 4
        }
    }
}

/// An encoded name is made of URL-safe base64 digits only, so it holds neither the `:`
/// that ends a metadata field nor the `;` that ends the metadata: no name can break out
/// of the field it is sent in.
pub proof fn encoded_ids_are_url_safe(id: Seq<char>)
    ensures
        forall|i: int| 0 <= i < encoded_id(id).len() ==> is_url_safe(#[trigger] encoded_id(id)[i]),
        !encoded_id(id).contains(':'),
        !encoded_id(id).contains(';'),
{
    let s = base64_of(encode_utf8(id));
    let k = lemma_base64_shape(encode_utf8(id));
    if k > 0 {
        assert(is_base64_digit(s[k - 1]));
    }
    lemma_without_padding_cut(s, k);
    assert forall|i: int| 0 <= i < encoded_id(id).len() implies is_url_safe(#[trigger] encoded_id(id)[i]) by {
        assert(is_base64_digit(s[i]));
    }
    if encoded_id(id).contains(':') {
        let i = choose|i: int| 0 <= i < encoded_id(id).len() && encoded_id(id)[i] == ':';
        assert(is_url_safe(encoded_id(id)[i]));
    }
    if encoded_id(id).contains(';') {
        let i = choose|i: int| 0 <= i < encoded_id(id).len() && encoded_id(id)[i] == ';';
        assert(is_url_safe(encoded_id(id)[i]));
    }
}

/// The opening of a single-escape dialect.
pub open spec fn single_escape_open(sequence: Sequence) -> Seq<char> {
    if sequence == Sequence::Osc9 {
        OSC9_OPEN@
    } else {
        OSC777_OPEN@
    }
}

/// Between the opening of an OSC 9 or OSC 777 escape and the BEL that closes it stands
/// no control character, whatever the title and body held: nothing a caller passes can
/// end the escape early or start another.
pub proof fn nothing_inside_can_end_the_escape(
    sequence: Sequence,
    title: Option<Seq<char>>,
    body: Seq<char>,
    id: Option<Seq<char>>,
    unnamed: Seq<char>,
)
    requires
        sequence != Sequence::Osc99,
    ensures
        ({
            let r = rendered(sequence, title, body, id, unnamed);
            let open = single_escape_open(sequence);
            &&& r.len() >= open.len() + BEL@.len()
            &&& r.subrange(0, open.len() as int) == open
            &&& r.skip(r.len() - BEL@.len()) == BEL@
            &&& forall|i: int|
                open.len() <= i < r.len() - BEL@.len() ==> !is_control(#[trigger] r[i])
        }),
{
    let r = rendered(sequence, title, body, id, unnamed);
    let open = single_escape_open(sequence);
    let b = sanitized(body);
    sanitized_is_inert(body);
    reveal_strlit(";");
    let inner = if sequence == Sequence::Osc9 {
        b
    } else {
        match usable_title(title) {
            Some(t) => t + ";"@ + b,
            None => b,
        }
    };
    if let Some(t) = title {
        sanitized_is_inert(t);
    }
    assert(r =~= open + inner + BEL@);
    assert forall|i: int| 0 <= i < inner.len() implies !is_control(#[trigger] inner[i]) by {
        if sequence != Sequence::Osc9 {
            if let Some(t) = usable_title(title) {
                if i < t.len() {
                    assert(inner[i] == sanitized(title->0)[i]);
                } else if i == t.len() {
                    assert(inner[i] == ';');
                } else {
                    assert(inner[i] == b[i - t.len() - 1]);
                }
            }
        }
    }
    assert forall|i: int| open.len() <= i < r.len() - BEL@.len() implies !is_control(#[trigger] r[i]) by {
        assert(r[i] == inner[i - open.len()]);
    }
    assert(r.subrange(0, open.len() as int) =~= open);
    assert(r.skip(r.len() - BEL@.len()) =~= BEL@);
}

/// The six-bit value of a standard base64 digit.
pub open spec fn digit_value(c: char) -> int {
    let u = c as int;
    if 65 <= u <= 90 {
        u - 65
    } else if 97 <= u <= 122 {
        u - 97 + 26
    } else if 48 <= u <= 57 {
        u - 48 + 52
    } else if c == '+' {
        62
    } else {
        63
    }
}

proof fn lemma_digit_value(v: int)
    requires
        0 <= v < 64,
    ensures
        digit_value(base64_digit(v)) == v,
        base64_digit(v) != '=',
{
    if v < 26 {
        assert(((v + 65) as u8) as char as int == v + 65);
    } else if v < 52 {
        assert(((v - 26 + 97) as u8) as char as int == v - 26 + 97);
    } else if v < 62 {
        assert(((v - 52 + 48) as u8) as char as int == v - 52 + 48);
    }
}

/// Equal sextets come from equal bytes.
proof fn lemma_sextets_determine_bytes(a0: int, a1: int, a2: int, c0: int, c1: int, c2: int)
    by (nonlinear_arith)
    requires
        0 <= a0 < 256,
        0 <= a1 < 256,
        0 <= a2 < 256,
        0 <= c0 < 256,
        0 <= c1 < 256,
        0 <= c2 < 256,
        a0 / 4 == c0 / 4,
        (a0 % 4) * 16 + a1 / 16 == (c0 % 4) * 16 + c1 / 16,
    ensures
        a0 == c0,
        a1 / 16 == c1 / 16,
        (a1 % 16) * 4 + a2 / 64 == (c1 % 16) * 4 + c2 / 64 ==> a1 == c1 && a2 / 64 == c2 / 64,
        (a1 % 16) * 4 + a2 / 64 == (c1 % 16) * 4 + c2 / 64 && a2 % 64 == c2 % 64 ==> a2 == c2,
{
}

proof fn lemma_without_padding_append(x: Seq<char>, y: Seq<char>)
    requires
        y.len() > 0,
        y[0] != '=',
    ensures
        without_padding(x + y) == x + without_padding(y),
    decreases y.len(),
{
    if y.last() == '=' {
        assert(y.len() > 1);
        assert((x + y).drop_last() =~= x + y.drop_last());
        lemma_without_padding_append(x, y.drop_last());
    } else {
        assert((x + y).last() == y.last());
    }
}

/// How many base64 digits stand before the padding for `n` bytes.
pub open spec fn digit_count(n: int) -> int {
    4 * (n / 3) + if n % 3 == 0 {
        0
    } else {
        n % 3 + 1
    }
}

proof fn lemma_digit_count_injective(m: int, n: int)
    requires
        0 <= m,
        0 <= n,
        digit_count(m) == digit_count(n),
    ensures
        m == n,
{
    assert(m == 3 * (m / 3) + m % 3);
    assert(n == 3 * (n / 3) + n % 3);
    let gm = if m % 3 == 0 { 0 } else { m % 3 + 1 };
    let gn = if n % 3 == 0 { 0 } else { n % 3 + 1 };
    assert(0 <= gm < 4 && 0 <= gn < 4);
    assert(m / 3 == n / 3 && gm == gn) by (nonlinear_arith)
        requires
            4 * (m / 3) + gm == 4 * (n / 3) + gn,
            0 <= gm < 4,
            0 <= gn < 4,
            m / 3 >= 0,
            n / 3 >= 0,
    ;
}

/// The digits of `b` before the padding: every digit of each full group, and of a final
/// short group one more digit than it has bytes.
proof fn lemma_unpadded_shape(b: Seq<u8>)
    ensures
        without_padding(base64_of(b)).len() == digit_count(b.len() as int),
        b.len() > 3 ==> without_padding(base64_of(b)) == base64_group(b.take(3)) + without_padding(
            base64_of(b.skip(3)),
        ),
        1 <= b.len() <= 3 ==> without_padding(base64_of(b)) == base64_group(b).take(b.len() as int + 1),
    decreases b.len(),
{
    let g = if b.len() <= 3 { b } else { b.take(3) };
    if b.len() > 0 {
        let b0 = g[0] as int;
        let b1 = if g.len() > 1 { g[1] as int } else { 0 };
        let b2 = if g.len() > 2 { g[2] as int } else { 0 };
        lemma_digit_value(b0 / 4);
        lemma_digit_value((b0 % 4) * 16 + b1 / 16);
        lemma_digit_value((b1 % 16) * 4 + b2 / 64);
        lemma_digit_value(b2 % 64);
    }
    if b.len() == 0 {
        assert(without_padding(Seq::<char>::empty()) == Seq::<char>::empty());
    } else if b.len() <= 3 {
        let grp = base64_group(b);
        lemma_without_padding_cut(grp, b.len() as int + 1);
    } else {
        let rest = b.skip(3);
        lemma_unpadded_shape(rest);
        let r = base64_of(rest);
        let rg = if rest.len() <= 3 { rest } else { rest.take(3) };
        let r0 = rg[0] as int;
        lemma_digit_value(r0 / 4);
        assert(r[0] == base64_digit(r0 / 4));
        lemma_without_padding_append(base64_group(b.take(3)), r);
        assert(digit_count(b.len() as int) == 4 + digit_count(rest.len() as int)) by {
            assert(b.len() as int == rest.len() as int + 3);
        }
    }
}

/// Two byte strings with the same unpadded base64 digits are the same byte string.
proof fn lemma_unpadded_injective(x: Seq<u8>, y: Seq<u8>)
    requires
        without_padding(base64_of(x)) == without_padding(base64_of(y)),
    ensures
        x == y,
    decreases x.len(),
{
    lemma_unpadded_shape(x);
    lemma_unpadded_shape(y);
    lemma_digit_count_injective(x.len() as int, y.len() as int);
    let d = without_padding(base64_of(x));
    if x.len() == 0 {
        assert(x =~= y);
    } else {
        let gx = if x.len() <= 3 { x } else { x.take(3) };
        let gy = if y.len() <= 3 { y } else { y.take(3) };
        let a0 = gx[0] as int;
        let a1 = if gx.len() > 1 { gx[1] as int } else { 0 };
        let a2 = if gx.len() > 2 { gx[2] as int } else { 0 };
        let c0 = gy[0] as int;
        let c1 = if gy.len() > 1 { gy[1] as int } else { 0 };
        let c2 = if gy.len() > 2 { gy[2] as int } else { 0 };
        let ex = base64_group(gx);
        let ey = base64_group(gy);
        assert(d[0] == ex[0] && d[0] == ey[0]);
        assert(d[1] == ex[1] && d[1] == ey[1]);
        lemma_digit_value(a0 / 4);
        lemma_digit_value(c0 / 4);
        lemma_digit_value((a0 % 4) * 16 + a1 / 16);
        lemma_digit_value((c0 % 4) * 16 + c1 / 16);
        lemma_digit_value((a1 % 16) * 4 + a2 / 64);
        lemma_digit_value((c1 % 16) * 4 + c2 / 64);
        lemma_digit_value(a2 % 64);
        lemma_digit_value(c2 % 64);
        if gx.len() > 1 {
            assert(d[2] == ex[2] && d[2] == ey[2]);
        }
        if gx.len() > 2 {
            assert(d[3] == ex[3] && d[3] == ey[3]);
        }
        lemma_sextets_determine_bytes(a0, a1, a2, c0, c1, c2);
        if x.len() <= 3 {
            assert(x =~= y);
        } else {
            let n = d.len() as int;
            assert(without_padding(base64_of(x.skip(3))) =~= d.subrange(4, n));
            assert(without_padding(base64_of(y.skip(3))) =~= d.subrange(4, n));
            lemma_unpadded_injective(x.skip(3), y.skip(3));
            assert(x =~= x.take(3) + x.skip(3));
            assert(y =~= y.take(3) + y.skip(3));
            assert(x.take(3) =~= y.take(3));
        }
    }
}

/// Different names go out under different ids, so a notification only ever replaces one
/// sent under the same name.
pub proof fn distinct_names_get_distinct_ids(a: Seq<char>, b: Seq<char>)
    requires
        a != b,
    ensures
        encoded_id(a) != encoded_id(b),
{
    if encoded_id(a) == encoded_id(b) {
        let da = without_padding(base64_of(encode_utf8(a)));
        let db = without_padding(base64_of(encode_utf8(b)));
        let ka = lemma_base64_shape(encode_utf8(a));
        let kb = lemma_base64_shape(encode_utf8(b));
        let sa = base64_of(encode_utf8(a));
        let sb = base64_of(encode_utf8(b));
        if ka > 0 {
            assert(is_base64_digit(sa[ka - 1]));
        }
        if kb > 0 {
            assert(is_base64_digit(sb[kb - 1]));
        }
        lemma_without_padding_cut(sa, ka);
        lemma_without_padding_cut(sb, kb);
        assert(da.len() == db.len()) by {
            assert(da.map_values(|c: char| url_safe(c)).len() == da.len());
        }
        assert forall|i: int| 0 <= i < da.len() implies da[i] == db[i] by {
            assert(is_base64_digit(sa[i]));
            assert(is_base64_digit(sb[i]));
            assert(encoded_id(a)[i] == url_safe(da[i]));
            assert(encoded_id(b)[i] == url_safe(db[i]));
        }
        assert(da =~= db);
        lemma_unpadded_injective(encode_utf8(a), encode_utf8(b));
        vstd::utf8::encode_utf8_decode_utf8(a);
        vstd::utf8::encode_utf8_decode_utf8(b);
    }
}

/// Standard base64 has its standard shape: four characters for every three bytes or
/// part of three, the digits first, then as many `=` as the last group is short of three
/// bytes, and nothing else.
pub proof fn base64_has_its_standard_shape(b: Seq<u8>)
    ensures
        base64_of(b).len() == 4 * ((b.len() + 2) / 3),
        forall|i: int|
            0 <= i < digit_count(b.len() as int) ==> is_base64_digit(#[trigger] base64_of(b)[i]),
        forall|i: int|
            digit_count(b.len() as int) <= i < base64_of(b).len() ==> #[trigger] base64_of(b)[i]
                == '=',
        base64_of(b).len() - digit_count(b.len() as int) == (3 - b.len() % 3) % 3,
{
    lemma_base64_shape(b);
}

/// Base64 loses nothing: two byte strings with the same encoding are the same.
pub proof fn base64_loses_nothing(x: Seq<u8>, y: Seq<u8>)
    requires
        base64_of(x) == base64_of(y),
    ensures
        x == y,
{
    lemma_unpadded_injective(x, y);
}

/// The id an OSC 99 notification goes out under: its name, encoded, or else `unnamed`.
pub open spec fn sent_id(id: Option<Seq<char>>, unnamed: Seq<char>) -> Seq<char> {
    match id {
        Some(i) => encoded_id(i),
        None => unnamed,
    }
}

/// The id an OSC 99 escape carries, as the terminal reads it: what stands after the
/// `i=` that opens it, up to the first `:`.
pub open spec fn id_field(text: Seq<char>) -> Seq<char> {
    let rest = text.skip(OSC99_OPEN@.len() as int);
    match find_first(rest, |c: char| c == ':') {
        Some(k) => rest.take(k),
        None => rest,
    }
}

proof fn lemma_id_field(text: Seq<char>, k: Seq<char>)
    requires
        !k.contains(':'),
        text.len() >= OSC99_OPEN@.len() + k.len() + 1,
        text.subrange(0, (OSC99_OPEN@.len() + k.len() + 1) as int) == OSC99_OPEN@ + k + ":"@,
    ensures
        id_field(text) == k,
{
    reveal_strlit(":");
    let n = OSC99_OPEN@.len() as int;
    let rest = text.skip(n);
    let p = |c: char| c == ':';
    assert forall|j: int| 0 <= j < k.len() implies !p(#[trigger] rest[j]) by {
        assert(rest[j] == text.subrange(0, n + k.len() + 1)[n + j]);
        assert((OSC99_OPEN@ + k + ":"@)[n + j] == k[j]);
        if k[j] == ':' {
            assert(k.contains(':'));
        }
    }
    assert(rest[k.len() as int] == text.subrange(0, n + k.len() + 1)[n + k.len()]);
    assert((OSC99_OPEN@ + k + ":"@)[n + k.len()] == ':');
    lemma_find_first(rest, p, k.len() as int);
    assert forall|j: int| 0 <= j < k.len() implies rest.take(k.len() as int)[j] == k[j] by {
        assert(rest[j] == text.subrange(0, n + k.len() + 1)[n + j]);
        assert((OSC99_OPEN@ + k + ":"@)[n + j] == k[j]);
    }
    assert(rest.take(k.len() as int) =~= k);
}

proof fn lemma_decimal_digits(n: nat)
    ensures
        forall|i: int| 0 <= i < decimal(n).len() ==> '0' <= #[trigger] decimal(n)[i] <= '9',
    decreases n,
{
    let d = n % 10;
    assert(((d + 48) as u8) as char as nat == d + 48);
    if n >= 10 {
        lemma_decimal_digits(n / 10);
        assert forall|i: int| 0 <= i < decimal(n).len() implies '0' <= #[trigger] decimal(n)[i]
            <= '9' by {
            if i < decimal(n / 10).len() {
                assert(decimal(n)[i] == decimal(n / 10)[i]);
            }
        }
    }
}

/// An id handed out for an unnamed notification holds no `:`.
proof fn lemma_anonymous_id_plain(process: nat, serial: nat)
    ensures
        !anonymous_id_text(process, serial).contains(':'),
{
    reveal_strlit("peal-");
    reveal_strlit("-");
    lemma_decimal_digits(process);
    lemma_decimal_digits(serial);
    let t = anonymous_id_text(process, serial);
    let a = "peal-"@ + decimal(process);
    let b = a + "-"@;
    assert forall|i: int| 0 <= i < t.len() implies t[i] != ':' by {
        if i < 5 {
            assert(t[i] == "peal-"@[i]);
        } else if i < a.len() {
            assert(t[i] == decimal(process)[i - 5]);
        } else if i < b.len() {
            assert(t[i] == '-');
        } else {
            assert(t[i] == decimal(serial)[i - b.len()]);
        }
    }
}

/// An OSC 99 notification goes out under the id it was meant to: its name, encoded, or
/// the id handed in for it when it has none, whatever its title and body.
pub proof fn each_osc99_notification_goes_out_under_its_id(
    title: Option<Seq<char>>,
    body: Seq<char>,
    id: Option<Seq<char>>,
    unnamed: Seq<char>,
)
    requires
        id is None ==> !unnamed.contains(':'),
    ensures
        id_field(rendered(Sequence::Osc99, title, body, id, unnamed)) == sent_id(id, unnamed),
{
    reveal_strlit(":");
    let k = sent_id(id, unnamed);
    if let Some(i) = id {
        encoded_ids_are_url_safe(i);
    }
    let text = rendered(Sequence::Osc99, title, body, id, unnamed);
    let prefix = OSC99_OPEN@ + k + ":"@;
    let meta = match usable_title(title) {
        Some(_) => "d=0:p=title"@,
        None => "d=1"@,
    };
    let first = match usable_title(title) {
        Some(t) => t,
        None => sanitized(body),
    };
    let chunk = osc99_chunk_text(k, meta, first);
    let after = match usable_title(title) {
        Some(_) => osc99_chunk_text(k, "d=1:p=body"@, sanitized(body)),
        None => Seq::<char>::empty(),
    };
    assert(text =~= chunk + after);
    assert(chunk =~= prefix + (meta + ":e=1;"@ + base64_of(encode_utf8(first)) + ST@));
    assert(text.subrange(0, prefix.len() as int) =~= prefix) by {
        assert forall|j: int| 0 <= j < prefix.len() implies text[j] == prefix[j] by {
            assert(text[j] == chunk[j]);
        }
    }
    lemma_id_field(text, k);
}

/// Two OSC 99 notifications go out under the same id only when they should: unnamed
/// ones under the ids of two different serials never do, and named ones do exactly when
/// their names are the same.
pub proof fn osc99_notifications_share_an_id_only_by_name(
    title1: Option<Seq<char>>,
    body1: Seq<char>,
    title2: Option<Seq<char>>,
    body2: Seq<char>,
    process: nat,
    first: nat,
    second: nat,
    name1: Seq<char>,
    name2: Seq<char>,
)
    ensures
        first != second ==> id_field(
            rendered(Sequence::Osc99, title1, body1, None, anonymous_id_text(process, first)),
        ) != id_field(
            rendered(Sequence::Osc99, title2, body2, None, anonymous_id_text(process, second)),
        ),
        (id_field(
            rendered(Sequence::Osc99, title1, body1, Some(name1), anonymous_id_text(process, first)),
        ) == id_field(
            rendered(Sequence::Osc99, title2, body2, Some(name2), anonymous_id_text(process, second)),
        )) <==> name1 == name2,
{
    lemma_anonymous_id_plain(process, first);
    lemma_anonymous_id_plain(process, second);
    each_osc99_notification_goes_out_under_its_id(title1, body1, None, anonymous_id_text(process, first));
    each_osc99_notification_goes_out_under_its_id(title2, body2, None, anonymous_id_text(process, second));
    each_osc99_notification_goes_out_under_its_id(
        title1,
        body1,
        Some(name1),
        anonymous_id_text(process, first),
    );
    each_osc99_notification_goes_out_under_its_id(
        title2,
        body2,
        Some(name2),
        anonymous_id_text(process, second),
    );
    if first != second {
        anonymous_ids_differ(process, first, second);
    }
    if name1 != name2 {
        distinct_names_get_distinct_ids(name1, name2);
    }
}

/// Standard base64 decoding (RFC 4648, section 4) of one group of four characters: three
/// bytes, or fewer where the group ends in `=`.
pub open spec fn decoded_group(g: Seq<char>) -> Seq<u8> {
    let v0 = digit_value(g[0]);
    let v1 = digit_value(g[1]);
    let v2 = digit_value(g[2]);
    let v3 = digit_value(g[3]);
    let b0 = (v0 * 4 + v1 / 16) as u8;
    let b1 = ((v1 % 16) * 16 + v2 / 4) as u8;
    let b2 = ((v2 % 4) * 64 + v3) as u8;
    if g[2] == '=' {
        seq![b0]
    } else if g[3] == '=' {
        seq![b0, b1]
    } else {
        seq![b0, b1, b2]
    }
}

/// Standard base64 decoding of a padded string, group by group.
pub open spec fn base64_decoded(s: Seq<char>) -> Seq<u8>
    decreases s.len(),
{
    if s.len() < 4 {
        Seq::empty()
    } else {
        decoded_group(s.take(4)) + base64_decoded(s.skip(4))
    }
}

proof fn lemma_sextets_give_bytes_back(a0: int, a1: int, a2: int)
    by (nonlinear_arith)
    requires
        0 <= a0 < 256,
        0 <= a1 < 256,
        0 <= a2 < 256,
    ensures
        (a0 / 4) * 4 + ((a0 % 4) * 16 + a1 / 16) / 16 == a0,
        (((a0 % 4) * 16 + a1 / 16) % 16) * 16 + ((a1 % 16) * 4 + a2 / 64) / 4 == a1,
        (((a1 % 16) * 4 + a2 / 64) % 4) * 64 + a2 % 64 == a2,
        0 <= a0 / 4 < 64,
        0 <= (a0 % 4) * 16 + a1 / 16 < 64,
        0 <= (a1 % 16) * 4 + a2 / 64 < 64,
        0 <= a2 % 64 < 64,
{
}

proof fn lemma_group_decodes(g: Seq<u8>)
    requires
        1 <= g.len() <= 3,
    ensures
        decoded_group(base64_group(g)) == g,
{
    let a0 = g[0] as int;
    let a1 = if g.len() > 1 { g[1] as int } else { 0 };
    let a2 = if g.len() > 2 { g[2] as int } else { 0 };
    lemma_sextets_give_bytes_back(a0, a1, a2);
    let s0 = a0 / 4;
    let s1 = (a0 % 4) * 16 + a1 / 16;
    let s2 = (a1 % 16) * 4 + a2 / 64;
    let s3 = a2 % 64;
    lemma_digit_value(s0);
    lemma_digit_value(s1);
    lemma_digit_value(s2);
    lemma_digit_value(s3);
    let e = base64_group(g);
    assert(digit_value(e[0]) == s0);
    assert(digit_value(e[1]) == s1);
    let d = decoded_group(e);
    assert(d[0] == g[0]);
    if g.len() > 1 {
        assert(digit_value(e[2]) == s2);
        assert(e[2] != '=');
        assert(d[1] == g[1]);
    }
    if g.len() > 2 {
        assert(digit_value(e[3]) == s3);
        assert(e[3] != '=');
        assert(d[2] == g[2]);
    }
    assert(d =~= g);
}

/// Standard base64 decoding gives back what was encoded.
pub proof fn base64_decodes_to_its_input(b: Seq<u8>)
    ensures
        base64_decoded(base64_of(b)) == b,
    decreases b.len(),
{
    if b.len() == 0 {
        assert(base64_of(b) =~= Seq::<char>::empty());
        assert(b =~= Seq::<u8>::empty());
    } else if b.len() <= 3 {
        let e = base64_group(b);
        lemma_group_decodes(b);
        assert(e.len() == 4);
        assert(e.take(4) =~= e);
        assert(e.skip(4) =~= Seq::<char>::empty());
        assert(base64_decoded(Seq::<char>::empty()) =~= Seq::<u8>::empty());
        assert(base64_decoded(e) == decoded_group(e.take(4)) + base64_decoded(e.skip(4)));
        assert(base64_decoded(e) =~= decoded_group(e));
    } else {
        let g = b.take(3);
        let rest = b.skip(3);
        base64_decodes_to_its_input(rest);
        lemma_group_decodes(g);
        let e = base64_group(g) + base64_of(rest);
        assert(e.take(4) =~= base64_group(g));
        assert(e.skip(4) =~= base64_of(rest));
        assert(b =~= g + rest);
    }
}

/// A titled OSC 99 notification goes out as two chunks under one id: the title chunk
/// first, under the id the notification was meant to go out under, and then the body
/// chunk under that same id, so that the terminal joins the two.
pub proof fn both_chunks_go_out_under_one_id(
    title: Option<Seq<char>>,
    body: Seq<char>,
    id: Option<Seq<char>>,
    unnamed: Seq<char>,
)
    requires
        usable_title(title) is Some,
        id is None ==> !unnamed.contains(':'),
    ensures
        ({
            let r = rendered(Sequence::Osc99, title, body, id, unnamed);
            let first = osc99_chunk_text(sent_id(id, unnamed), "d=0:p=title"@, usable_title(title)->0);
            &&& r.len() > first.len()
            &&& r.take(first.len() as int) == first
            &&& id_field(r) == sent_id(id, unnamed)
            &&& id_field(r.skip(first.len() as int)) == sent_id(id, unnamed)
        }),
{
    reveal_strlit(":");
    let k = sent_id(id, unnamed);
    if let Some(i) = id {
        encoded_ids_are_url_safe(i);
    }
    let r = rendered(Sequence::Osc99, title, body, id, unnamed);
    let first = osc99_chunk_text(k, "d=0:p=title"@, usable_title(title)->0);
    let second = osc99_chunk_text(k, "d=1:p=body"@, sanitized(body));
    assert(r =~= first + second);
    assert(r.take(first.len() as int) =~= first);
    assert(r.skip(first.len() as int) =~= second);
    let prefix = OSC99_OPEN@ + k + ":"@;
    assert(second =~= prefix + ("d=1:p=body"@ + ":e=1;"@ + base64_of(encode_utf8(sanitized(body))) + ST@));
    assert(second.subrange(0, prefix.len() as int) =~= prefix);
    lemma_id_field(second, k);
    each_osc99_notification_goes_out_under_its_id(title, body, id, unnamed);
}

} // verus!
