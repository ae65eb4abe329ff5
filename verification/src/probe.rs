//! Measuring a terminal that the table does not describe, or does not describe rightly.
//!
//! The inverse of [`crate::doctor`]. doctor reads the table and explains it; probe
//! ignores the table and produces one, by sending each dialect in turn and asking the
//! only instrument that can tell whether a notification appeared — the person sitting
//! in front of it. The asking happens outside the library; what to make of the answers
//! happens here.
use vstd::prelude::*;

use crate::detect::{Resolution, ResolutionModel};
use crate::detect::query::{through_tmux, tmux_wrapped};
use crate::notify::render::{bytes, decimal, push_decimal, rendered};
use vstd::utf8::encode_utf8;
use crate::text::{
    chars_of, lowercase, push_char, push_str, same_text, string_of, to_lowercase, trim,
    trim_bounds,
};
use crate::{
    database, every_dialect_has_a_capability, find_terminal, opt_view, sequence_key,
    sequence_name, table, all_sequences, Sequence,
};

verus! {

broadcast use vstd::string::group_string_axioms;

/// What one run of probe found out.
#[derive(Debug, Clone, PartialEq, Eq)]
pub struct Measurement {
    /// The name the terminal gave for itself, if it answers XTVERSION at all.
    pub xtversion: Option<String>,
    pub version: Option<String>,
    pub term_program: Option<String>,
    pub term: Option<String>,
    /// Every dialect that raised a notification, richest first.
    pub accepts: Vec<Sequence>,
    /// The operating system it was measured on, which the table does not record because
    /// every entry in it so far came from the same one.
    pub os: &'static str,
    /// Whether tmux stood between peal and the terminal.
    ///
    /// The dialects are wrapped to reach past it, so the answers should be the same
    /// either way — but "should be" is what a measurement is for, and a reader comparing
    /// two entries that disagree will want to know this about them.
    pub through_tmux: bool,
}

/// What a [`Measurement`] says.
pub struct MeasurementModel {
    pub xtversion: Option<Seq<char>>,
    pub version: Option<Seq<char>>,
    pub term_program: Option<Seq<char>>,
    pub term: Option<Seq<char>>,
    pub accepts: Seq<Sequence>,
    pub os: Seq<char>,
    pub through_tmux: bool,
}

impl View for Measurement {
    type V = MeasurementModel;

    open spec fn view(&self) -> MeasurementModel {
        MeasurementModel {
            xtversion: opt_view(self.xtversion),
            version: opt_view(self.version),
            term_program: opt_view(self.term_program),
            term: opt_view(self.term),
            accepts: self.accepts@,
            os: self.os@,
            through_tmux: self.through_tmux,
        }
    }
}

/// The name an id is derived from: the terminal's own name, else `TERM_PROGRAM`, else
/// `TERM`, else `unknown`.
pub open spec fn id_source(m: MeasurementModel) -> Seq<char> {
    match m.xtversion {
        Some(x) => x,
        None => match m.term_program {
            Some(p) => p,
            None => match m.term {
                Some(t) => t,
                None => "unknown"@,
            },
        },
    }
}

/// `s` with every trailing copy of `suffix` removed.
pub open spec fn without_suffix(s: Seq<char>, suffix: Seq<char>) -> Seq<char>
    decreases s.len(),
{
    if suffix.len() > 0 && s.len() >= suffix.len() && s.skip(s.len() - suffix.len()) == suffix {
        without_suffix(s.take(s.len() - suffix.len()), suffix)
    } else {
        s
    }
}

/// An id from a lower-cased name: `_` becomes `-`, and a trailing `.app` goes.
pub open spec fn id_from_lowercase(lowered: Seq<char>) -> Seq<char> {
    without_suffix(lowered.map_values(|c: char| if c == '_' { '-' } else { c }), ".app"@)
}

/// The id a measurement files its terminal under.
pub open spec fn measurement_id(m: MeasurementModel) -> Seq<char> {
    id_from_lowercase(lowercase(id_source(m)))
}

/// Turns a lower-cased name into the id the table would file it under, the way the
/// existing entries were derived: `Apple_Terminal` becomes `apple-terminal`.
pub fn derive_id(lowered: &str) -> (r: String)
    ensures
        r@ == id_from_lowercase(lowered@),
{
    let v = chars_of(lowered);
    let mut mapped: Vec<char> = Vec::new();
    let mut i: usize = 0;
    while i < v.len()
        invariant
            i <= v@.len(),
            v@ == lowered@,
            mapped@ == v@.take(i as int).map_values(|c: char| if c == '_' { '-' } else { c }),
        decreases v@.len() - i,
    {
        let c = v[i];
        mapped.push(if c == '_' { '-' } else { c });
        i += 1;
        assert(mapped@ =~= v@.take(i as int).map_values(|c: char| if c == '_' { '-' } else { c }));
    }
    assert(v@.take(i as int) =~= v@);
    let ghost m = mapped@;
    let mut end = mapped.len();
    assert(m.take(m.len() as int) =~= m);
    loop
        invariant
            end <= mapped@.len(),
            mapped@ == m,
            without_suffix(m, ".app"@) == without_suffix(m.take(end as int), ".app"@),
        ensures
            end <= mapped@.len(),
            mapped@ == m,
            without_suffix(m, ".app"@) == m.take(end as int),
        decreases end,
    {
        let ghost t = m.take(end as int);
        proof { reveal_strlit(".app"); }
        if end >= 4 && mapped[end - 4] == '.' && mapped[end - 3] == 'a' && mapped[end - 2] == 'p'
            && mapped[end - 1] == 'p' {
            assert(t.skip(t.len() - 4) =~= ".app"@);
            assert(t.take(t.len() - 4) =~= m.take(end - 4));
            end -= 4;
        } else {
            proof {
                if t.len() >= 4 && t.skip(t.len() - 4) == ".app"@ {
                    assert(t.skip(t.len() - 4)[0] == mapped@[end - 4]);
                    assert(t.skip(t.len() - 4)[1] == mapped@[end - 3]);
                    assert(t.skip(t.len() - 4)[2] == mapped@[end - 2]);
                    assert(t.skip(t.len() - 4)[3] == mapped@[end - 1]);
                }
                assert(without_suffix(t, ".app"@) == t);
            }
            break;
        }
    }
    let kept = vstd::slice::slice_subrange(mapped.as_slice(), 0, end);
    assert(kept@ =~= m.take(end as int));
    string_of(kept)
}

impl Measurement {
    /// The name the id is derived from.
    pub fn id_source(&self) -> (r: &str)
        ensures
            r@ == id_source(self@),
    {
        match &self.xtversion {
            Some(x) => x.as_str(),
            None => match &self.term_program {
                Some(p) => p.as_str(),
                None => match &self.term {
                    Some(t) => t.as_str(),
                    None => "unknown",
                },
            },
        }
    }

    /// The id this terminal should go by, derived the way the existing entries were.
    pub fn id(&self) -> (r: String)
        ensures
            r@ == measurement_id(self@),
    {
        let lowered = to_lowercase(self.id_source());
        derive_id(lowered.as_str())
    }
}

/// A TOML list holding the value, or an empty one.
pub open spec fn quoted(value: Option<Seq<char>>) -> Seq<char> {
    match value {
        Some(v) => "[\""@ + v + "\"]"@,
        None => "[]"@,
    }
}

/// One dialect as the table's `accepts` list spells it.
pub open spec fn key_item(s: Sequence) -> Seq<char> {
    "\""@ + sequence_key(s) + "\""@
}

/// The items of a list joined with `, `.
pub open spec fn joined_keys(s: Seq<Sequence>) -> Seq<char>
    decreases s.len(),
{
    if s.len() == 0 {
        Seq::empty()
    } else if s.len() == 1 {
        key_item(s[0])
    } else {
        joined_keys(s.drop_last()) + ", "@ + key_item(s.last())
    }
}

/// The entry for a measurement filed under `id`.
pub open spec fn entry_text(m: MeasurementModel, id: Seq<char>) -> Seq<char> {
    (if m.through_tmux {
        "# Measured on "@ + m.os + ", through tmux\n"@
    } else {
        "# Measured on "@ + m.os + "\n"@
    }) + "[[terminals]]\n"@ + "id             = \""@ + id + "\"\n"@ + "xtversion      = \""@
        + match m.xtversion {
        Some(x) => x,
        None => Seq::empty(),
    } + "\"\n"@ + "term_program   = "@ + quoted(m.term_program) + "\n"@ + "term           = "@
        + quoted(m.term) + "\n"@ + "accepts        = ["@ + joined_keys(m.accepts) + "]\n"@
        + "verified       = true\n"@ + match m.version {
        Some(v) => "tested_version = \""@ + v + "\"\n"@,
        None => Seq::empty(),
    }
}

fn push_quoted(out: &mut String, value: &Option<String>)
    ensures
        final(out)@ == old(out)@ + quoted(opt_view(*value)),
{
    match value {
        Some(v) => {
            push_str(out, "[\"");
            push_str(out, v.as_str());
            push_str(out, "\"]");
        },
        None => push_str(out, "[]"),
    }
    assert(final(out)@ =~= old(out)@ + quoted(opt_view(*value)));
}

fn push_keys(out: &mut String, accepts: &Vec<Sequence>)
    ensures
        final(out)@ == old(out)@ + joined_keys(accepts@),
{
    let ghost start = out@;
    let mut i: usize = 0;
    while i < accepts.len()
        invariant
            i <= accepts@.len(),
            out@ == start + joined_keys(accepts@.take(i as int)),
        decreases accepts@.len() - i,
    {
        if i > 0 {
            push_str(out, ", ");
        }
        push_str(out, "\"");
        push_str(out, accepts[i].key());
        push_str(out, "\"");
        proof {
            let t = accepts@.take(i + 1);
            assert(t.drop_last() =~= accepts@.take(i as int));
            if i == 0 {
                assert(accepts@.take(0) =~= Seq::<Sequence>::empty());
            }
        }
        i += 1;
        assert(out@ =~= start + joined_keys(accepts@.take(i as int)));
    }
    assert(accepts@.take(i as int) =~= accepts@);
}

/// The entry to paste into the table for a measurement filed under `id`, laid out the
/// way the table's file already looks.
pub fn entry_with_id(measurement: &Measurement, id: &str) -> (r: String)
    ensures
        r@ == entry_text(measurement@, id@),
{
    let mut out = String::new();
    push_str(&mut out, "# Measured on ");
    push_str(&mut out, measurement.os);
    if measurement.through_tmux {
        push_str(&mut out, ", through tmux\n");
    } else {
        push_str(&mut out, "\n");
    }
    push_str(&mut out, "[[terminals]]\n");
    push_str(&mut out, "id             = \"");
    push_str(&mut out, id);
    push_str(&mut out, "\"\n");
    push_str(&mut out, "xtversion      = \"");
    match &measurement.xtversion {
        Some(x) => push_str(&mut out, x.as_str()),
        None => {},
    }
    push_str(&mut out, "\"\n");
    push_str(&mut out, "term_program   = ");
    push_quoted(&mut out, &measurement.term_program);
    push_str(&mut out, "\n");
    push_str(&mut out, "term           = ");
    push_quoted(&mut out, &measurement.term);
    push_str(&mut out, "\n");
    push_str(&mut out, "accepts        = [");
    push_keys(&mut out, &measurement.accepts);
    push_str(&mut out, "]\n");
    push_str(&mut out, "verified       = true\n");
    match &measurement.version {
        Some(v) => {
            push_str(&mut out, "tested_version = \"");
            push_str(&mut out, v.as_str());
            push_str(&mut out, "\"\n");
        },
        None => {},
    }
    assert(out@ =~= entry_text(measurement@, id@));
    out
}

/// The entry to paste into the table, laid out the way the table's file already looks
/// so it can go straight in.
pub fn entry(measurement: &Measurement) -> (r: String)
    ensures
        r@ == entry_text(measurement@, measurement_id(measurement@)),
{
    let id = measurement.id();
    entry_with_id(measurement, id.as_str())
}

/// The dialects by name, joined with `, `; `nothing` for none.
pub open spec fn names_joined(s: Seq<Sequence>) -> Seq<char>
    decreases s.len(),
{
    if s.len() == 0 {
        Seq::empty()
    } else if s.len() == 1 {
        sequence_name(s[0])
    } else {
        names_joined(s.drop_last()) + ", "@ + sequence_name(s.last())
    }
}

/// A list of dialects as the comparison shows it.
pub open spec fn list_text(s: Seq<Sequence>) -> Seq<char> {
    if s.len() == 0 {
        "nothing"@
    } else {
        names_joined(s)
    }
}

/// A list of dialects as the comparison shows it: their names, or `nothing`.
pub fn list(sequences: &[Sequence]) -> (r: String)
    ensures
        r@ == list_text(sequences@),
{
    let mut out = String::new();
    if sequences.len() == 0 {
        push_str(&mut out, "nothing");
        return out;
    }
    let mut i: usize = 0;
    while i < sequences.len()
        invariant
            i <= sequences@.len(),
            out@ == names_joined(sequences@.take(i as int)),
        decreases sequences@.len() - i,
    {
        if i > 0 {
            push_str(&mut out, ", ");
        }
        push_str(&mut out, sequences[i].name());
        proof {
            let t = sequences@.take(i + 1);
            assert(t.drop_last() =~= sequences@.take(i as int));
            if i == 0 {
                assert(sequences@.take(0) =~= Seq::<Sequence>::empty());
            }
        }
        i += 1;
        assert(out@ =~= names_joined(sequences@.take(i as int)));
    }
    assert(sequences@.take(i as int) =~= sequences@);
    out
}

pub const NOT_IN_TABLE: &'static str =
    "  This terminal is not in the table yet. The entry below is what it should say.\n";

pub const ALREADY: &'static str = "  Already in the table as \"";

pub const AGREES: &'static str =
    "\", and this run agrees with it. Nothing to do,\n  unless the version differs from the one recorded there.\n";

pub const DISAGREES: &'static str = "\", and this run disagrees with it.\n\n    the table says   ";

pub const RUN_FOUND: &'static str = "\n    this run found   ";

pub const CHANGED: &'static str =
    "\n\n  Either the terminal changed between versions or one of the two measurements is\n  wrong. Worth saying which version you are on when you report it.\n";

/// How a measurement filed under `id` stands against what the table claims.
pub open spec fn comparison_text(m: MeasurementModel, id: Seq<char>) -> Seq<char> {
    match find_terminal(table().terminals, id) {
        None => NOT_IN_TABLE@,
        Some(i) => {
            let known = table().terminals[i];
            if known.accepts == m.accepts {
                ALREADY@ + id + AGREES@
            } else {
                ALREADY@ + id + DISAGREES@ + list_text(known.accepts) + RUN_FOUND@ + list_text(
                    m.accepts,
                ) + CHANGED@
            }
        },
    }
}

fn same_dialects(a: &Vec<Sequence>, b: &Vec<Sequence>) -> (r: bool)
    ensures
        r == (a@ == b@),
{
    if a.len() != b.len() {
        return false;
    }
    let mut i: usize = 0;
    while i < a.len()
        invariant
            i <= a@.len(),
            a@.len() == b@.len(),
            forall|j: int| 0 <= j < i ==> a@[j] == b@[j],
        decreases a@.len() - i,
    {
        if a[i] != b[i] {
            return false;
        }
        i += 1;
    }
    assert(a@ =~= b@);
    true
}

/// How the measurement, filed under `id`, stands against what the table claims.
pub fn against_the_table_with_id(measurement: &Measurement, id: &str) -> (r: String)
    ensures
        r@ == comparison_text(measurement@, id@),
{
    let db = database();
    let mut out = String::new();
    match db.terminal(id) {
        None => {
            push_str(&mut out, NOT_IN_TABLE);
        },
        Some(known) => {
            push_str(&mut out, ALREADY);
            push_str(&mut out, id);
            if same_dialects(&known.accepts, &measurement.accepts) {
                push_str(&mut out, AGREES);
            } else {
                push_str(&mut out, DISAGREES);
                let table_says = list(known.accepts.as_slice());
                push_str(&mut out, table_says.as_str());
                push_str(&mut out, RUN_FOUND);
                let found = list(measurement.accepts.as_slice());
                push_str(&mut out, found.as_str());
                push_str(&mut out, CHANGED);
            }
        },
    }
    assert(out@ =~= comparison_text(measurement@, id@));
    out
}

/// How the measurement stands against what the table already claims.
pub fn against_the_table(measurement: &Measurement) -> (r: String)
    ensures
        r@ == comparison_text(measurement@, measurement_id(measurement@)),
{
    let id = measurement.id();
    against_the_table_with_id(measurement, id.as_str())
}

/// A comparison with the table says one of three things, and which one is decided by the
/// table alone: that the terminal is new to it, that this run agrees with its entry
/// (exactly when the dialects measured are the dialects recorded), or that it disagrees,
/// showing what the table says beside what this run found.
pub proof fn the_comparison_says_one_of_three_things(m: MeasurementModel, id: Seq<char>)
    ensures
        (comparison_text(m, id) == NOT_IN_TABLE@) <==> find_terminal(table().terminals, id) is None,
        (comparison_text(m, id) == ALREADY@ + id + AGREES@) <==> (find_terminal(
            table().terminals,
            id,
        ) matches Some(i) && table().terminals[i].accepts == m.accepts),
        match find_terminal(table().terminals, id) {
            Some(i) => table().terminals[i].accepts != m.accepts ==> comparison_text(m, id)
                == ALREADY@ + id + DISAGREES@ + list_text(table().terminals[i].accepts)
                + RUN_FOUND@ + list_text(m.accepts) + CHANGED@,
            None => true,
        },
{
    reveal_strlit("  This terminal is not in the table yet. The entry below is what it should say.\n");
    reveal_strlit("  Already in the table as \"");
    reveal_strlit("\", and this run agrees with it. Nothing to do,\n  unless the version differs from the one recorded there.\n");
    reveal_strlit("\", and this run disagrees with it.\n\n    the table says   ");
    let t = comparison_text(m, id);
    let agree = ALREADY@ + id + AGREES@;
    assert(NOT_IN_TABLE@[2] == 'T');
    assert(ALREADY@[2] == 'A');
    assert(agree[2] == 'A');
    let at: int = (ALREADY@.len() + id.len() + 16) as int;
    assert(agree[at] == AGREES@[16]);
    assert(AGREES@[16] == 'a');
    assert(DISAGREES@[16] == 'd');
    if let Some(i) = find_terminal(table().terminals, id) {
        assert(t[2] == 'A');
        if table().terminals[i].accepts != m.accepts {
            assert(t[at] == DISAGREES@[16]);
        }
    } else {
        assert(t == NOT_IN_TABLE@);
    }
}

pub const NOTHING_APPEARED: &'static str =
    "  Nothing appeared for any dialect.\n\n  That is a real answer for some terminals — Terminal.app raises no notifications\n  by any sequence — but it is also exactly what a terminal looks like when it is\n  not permitted to post notifications. Check ";

pub const MACOS_PERMISSION: &'static str = "System Settings > Notifications";

pub const OTHER_PERMISSION: &'static str = "the notification settings of your desktop environment";

pub const BEFORE_REPORTING: &'static str =
    " and find\n  this terminal before reporting the entry below; a newly installed terminal\n  starts out denied.\n";

/// The warning for a run where nothing appeared, on the given operating system.
pub open spec fn nothing_appeared_text(os: Seq<char>) -> Seq<char> {
    NOTHING_APPEARED@ + (if os == "macos"@ {
        MACOS_PERMISSION@
    } else {
        OTHER_PERMISSION@
    }) + BEFORE_REPORTING@
}

/// The warning for a run where nothing appeared at all.
///
/// Both explanations look identical from here: a terminal that raises no notifications
/// and a terminal that is not permitted to. The entry is still printed, since the first
/// is a real answer worth recording, but it cannot be trusted until the second is ruled
/// out. `os` names the operating system, which decides where the reader is sent to look.
pub fn nothing_appeared(os: &str) -> (r: String)
    ensures
        r@ == nothing_appeared_text(os@),
{
    let mut out = String::new();
    push_str(&mut out, NOTHING_APPEARED);
    if same_text(os, "macos") {
        push_str(&mut out, MACOS_PERMISSION);
    } else {
        push_str(&mut out, OTHER_PERMISSION);
    }
    push_str(&mut out, BEFORE_REPORTING);
    assert(out@ =~= nothing_appeared_text(os@));
    out
}

/// TERM values that name a set of capabilities rather than a terminal.
///
/// Recording one as a way to identify a terminal would match every other terminal that
/// claims the same set, which is most of them. A probe leaves them out even though the
/// terminal really did set one — this is why the entries for iTerm2 and Terminal.app
/// have an empty `term` despite both setting `xterm-256color`.
pub open spec fn generic_terms() -> Seq<Seq<char>> {
    seq![
        "ansi"@,
        "dumb"@,
        "linux"@,
        "screen"@,
        "screen-256color"@,
        "tmux"@,
        "tmux-256color"@,
        "vt100"@,
        "vt220"@,
        "xterm"@,
        "xterm-16color"@,
        "xterm-256color"@,
        "xterm-color"@,
        "xterm-new"@,
    ]
}

/// Whether a TERM value names a set of capabilities rather than a terminal.
pub fn is_generic_term(term: &str) -> (r: bool)
    ensures
        r == generic_terms().contains(term@),
{
    let terms: Vec<&str> = vec![
        "ansi",
        "dumb",
        "linux",
        "screen",
        "screen-256color",
        "tmux",
        "tmux-256color",
        "vt100",
        "vt220",
        "xterm",
        "xterm-16color",
        "xterm-256color",
        "xterm-color",
        "xterm-new",
    ];
    let ghost g = terms@.map_values(|s: &str| s@);
    assert(g =~= generic_terms());
    let mut i: usize = 0;
    while i < terms.len()
        invariant
            i <= terms@.len(),
            g == terms@.map_values(|s: &str| s@),
            g == generic_terms(),
            forall|j: int| 0 <= j < i ==> g[j] != term@,
        decreases terms@.len() - i,
    {
        if same_text(terms[i], term) {
            assert(g[i as int] == term@);
            return true;
        }
        i += 1;
    }
    false
}

/// A TERM value worth recording: set, and not generic.
pub open spec fn identifying(term: Option<Seq<char>>) -> Option<Seq<char>> {
    match term {
        Some(t) => if generic_terms().contains(t) { None } else { Some(t) },
        None => None,
    }
}

/// The TERM value to record, or `None` where it names no terminal in particular.
pub fn identifying_term(term: Option<String>) -> (r: Option<String>)
    ensures
        opt_view(r) == identifying(opt_view(term)),
{
    match term {
        Some(t) => if is_generic_term(t.as_str()) {
            None
        } else {
            Some(t)
        },
        None => None,
    }
}

/// A value that is set to something.
pub open spec fn set_text(value: Option<Seq<char>>) -> Option<Seq<char>> {
    match value {
        Some(v) => if v.len() > 0 { Some(v) } else { None },
        None => None,
    }
}

/// The value, where it is not empty.
pub fn nonempty(value: Option<String>) -> (r: Option<String>)
    ensures
        opt_view(r) == set_text(opt_view(value)),
{
    match value {
        Some(v) => if v.as_str().is_empty() {
            None
        } else {
            Some(v)
        },
        None => None,
    }
}

/// How many fields a dialect can carry, out of title, body and id.
pub open spec fn field_count(s: Sequence) -> nat {
    let c = table().capability(s);
    (if c.title { 1nat } else { 0nat }) + (if c.body { 1nat } else { 0nat }) + (if c.id {
        1nat
    } else {
        0nat
    })
}

/// The dialects of `s` that carry exactly `n` fields, in the order of `s`.
pub open spec fn with_field_count(s: Seq<Sequence>, n: nat) -> Seq<Sequence>
    decreases s.len(),
{
    if s.len() == 0 {
        Seq::empty()
    } else if field_count(s.last()) == n {
        with_field_count(s.drop_last(), n).push(s.last())
    } else {
        with_field_count(s.drop_last(), n)
    }
}

/// Every dialect, most fields first; dialects with as many fields keep the enum's order.
pub open spec fn richest_order() -> Seq<Sequence> {
    with_field_count(all_sequences(), 3) + with_field_count(all_sequences(), 2)
        + with_field_count(all_sequences(), 1) + with_field_count(all_sequences(), 0)
}

fn push_with_fields(out: &mut Vec<Sequence>, db: &crate::Database, n: u8)
    requires
        db@ == table(),
    ensures
        final(out)@ == old(out)@ + with_field_count(all_sequences(), n as nat),
{
    proof { every_dialect_has_a_capability(); }
    let all: Vec<Sequence> = vec![Sequence::Osc9, Sequence::Osc777, Sequence::Osc99];
    assert(all@ =~= all_sequences());
    let ghost start = out@;
    let mut i: usize = 0;
    while i < all.len()
        invariant
            i <= all@.len(),
            all@ == all_sequences(),
            db@ == table(),
            forall|s: Sequence| #[trigger] table().describes(s),
            out@ == start + with_field_count(all@.take(i as int), n as nat),
        decreases all@.len() - i,
    {
        let s = all[i];
        let c = db.capability(s);
        let fields: u8 = (if c.title { 1u8 } else { 0u8 }) + (if c.body { 1u8 } else { 0u8 }) + (if c.id {
            1u8
        } else {
            0u8
        });
        if fields == n {
            out.push(s);
        }
        proof {
            assert(all@.take(i + 1).drop_last() =~= all@.take(i as int));
        }
        i += 1;
        assert(out@ =~= start + with_field_count(all@.take(i as int), n as nat));
    }
    assert(all@.take(i as int) =~= all@);
}

/// Dialects to try, most expressive first, which is also the order they belong in
/// `accepts`.
pub fn richest_first() -> (r: Vec<Sequence>)
    ensures
        r@ == richest_order(),
{
    let db = database();
    let mut out: Vec<Sequence> = Vec::new();
    push_with_fields(&mut out, &db, 3);
    push_with_fields(&mut out, &db, 2);
    push_with_fields(&mut out, &db, 1);
    push_with_fields(&mut out, &db, 0);
    assert(out@ =~= richest_order());
    out
}

pub const CANNOT_BE_IDENTIFIED: &'static str =
    "  This terminal cannot be identified. It gave no name of its own, and the\n  environment holds nothing that names it either, so peal has no way to\n  tell it from any other terminal. The entry below is a measurement, not\n  something that can be acted on yet.\n";

pub const MEASURED_THROUGH_TMUX: &'static str =
    "  Measured through tmux, which overwrites TERM_PROGRAM and TERM with its\n  own. Neither names the terminal beyond it, so both are left out and the\n  name the terminal gave is all that identifies it here. An entry measured\n  outside tmux would carry more; the dialects below are the same either\n  way, the wrapper reaching the real terminal.\n";

pub const TERM_IS: &'static str = "  TERM is \"";

pub const TERM_LEFT_OUT: &'static str =
    "\", which names a set of capabilities rather than this\n  terminal, so it is left out of the entry. Recording it would match every\n  other terminal that claims the same set.\n";

/// What the entry had to leave out, given the TERM value of the environment.
pub open spec fn note_text(m: MeasurementModel, term_env: Option<Seq<char>>) -> Option<Seq<char>> {
    if m.xtversion is None && m.term_program is None && m.term is None {
        Some(CANNOT_BE_IDENTIFIED@)
    } else if m.through_tmux {
        Some(MEASURED_THROUGH_TMUX@)
    } else {
        match set_text(term_env) {
            Some(t) => if generic_terms().contains(t) {
                Some(TERM_IS@ + t + TERM_LEFT_OUT@)
            } else {
                None
            },
            None => None,
        }
    }
}

/// What the entry had to leave out, and what that costs. `term_env` is the TERM value of
/// the environment the measurement was taken in.
pub fn identification_note(measurement: &Measurement, term_env: Option<&str>) -> (r: Option<
    String,
>)
    ensures
        opt_view(r) == note_text(measurement@, crate::detect::env::opt_str(term_env)),
{
    let identifiable = measurement.xtversion.is_some() || measurement.term_program.is_some()
        || measurement.term.is_some();
    if !identifiable {
        return Some(CANNOT_BE_IDENTIFIED.to_owned());
    }
    // Under tmux the environment describes tmux, so the name the terminal gave is the
    // only field left that identifies it.
    if measurement.through_tmux {
        return Some(MEASURED_THROUGH_TMUX.to_owned());
    }
    match term_env {
        Some(t) => if !t.is_empty() && is_generic_term(t) {
            let mut out = String::new();
            push_str(&mut out, TERM_IS);
            push_str(&mut out, t);
            push_str(&mut out, TERM_LEFT_OUT);
            Some(out)
        } else {
            None
        },
        None => None,
    }
}

/// What a measurement records of the terminal's own name and version: what it said just
/// now, never the table's figures.
pub open spec fn identity_of(r: ResolutionModel) -> (Option<Seq<char>>, Option<Seq<char>>) {
    match r {
        ResolutionModel::Known { terminal, version, .. } => (
            if terminal.xtversion.len() > 0 {
                Some(terminal.xtversion)
            } else {
                None
            },
            version,
        ),
        ResolutionModel::UnknownButModern { name, version } => (Some(name), version),
        _ => (None, None),
    }
}

/// The name and version a measurement records, from what detection concluded.
///
/// The version comes from what the terminal said just now, never from the table: a
/// measurement records the release it was taken against, and the table's own figure
/// may be several releases behind what is running.
pub fn measured_identity(resolution: &Resolution) -> (r: (Option<String>, Option<String>))
    ensures
        (opt_view(r.0), opt_view(r.1)) == identity_of(resolution@),
{
    match resolution {
        Resolution::Known { terminal, version, .. } => (
            if terminal.xtversion.as_str().is_empty() {
                None
            } else {
                Some(terminal.xtversion.clone())
            },
            version.clone(),
        ),
        Resolution::UnknownButModern { name, version } => (Some(name.clone()), version.clone()),
        _ => (None, None),
    }
}

/// The environment a measurement records. Under tmux both variables describe the
/// multiplexer, not the terminal beyond it, so neither is recorded; otherwise an empty
/// value counts as none, and a generic TERM is left out.
pub open spec fn recorded_environment_of(
    inside_tmux: bool,
    term_program: Option<Seq<char>>,
    term: Option<Seq<char>>,
) -> (Option<Seq<char>>, Option<Seq<char>>) {
    if inside_tmux {
        (None, None)
    } else {
        (set_text(term_program), identifying(set_text(term)))
    }
}

/// The `TERM_PROGRAM` and `TERM` a measurement records.
pub fn recorded_environment(
    inside_tmux: bool,
    term_program: Option<String>,
    term: Option<String>,
) -> (r: (Option<String>, Option<String>))
    ensures
        (opt_view(r.0), opt_view(r.1)) == recorded_environment_of(
            inside_tmux,
            opt_view(term_program),
            opt_view(term),
        ),
{
    if inside_tmux {
        (None, None)
    } else {
        (nonempty(term_program), identifying_term(nonempty(term)))
    }
}

/// What probe prints once every dialect has been tried.
pub open spec fn probe_report_text(m: MeasurementModel, term_env: Option<Seq<char>>) -> Seq<char> {
    "\n"@ + (if m.accepts.len() == 0 {
        nothing_appeared_text(m.os) + "\n"@
    } else {
        Seq::empty()
    }) + match note_text(m, term_env) {
        Some(n) => n + "\n"@,
        None => Seq::empty(),
    } + comparison_text(m, measurement_id(m)) + "\n"@ + entry_text(m, measurement_id(m))
}

/// What probe prints once every dialect has been tried: the warnings that apply, how the
/// measurement stands against the table, and the entry. `term_env` is the TERM value of
/// the environment.
pub fn probe_report(measurement: &Measurement, term_env: Option<&str>) -> (r: String)
    ensures
        r@ == probe_report_text(measurement@, crate::detect::env::opt_str(term_env)),
{
    let mut out = String::new();
    push_str(&mut out, "\n");
    if measurement.accepts.len() == 0 {
        let warning = nothing_appeared(measurement.os);
        push_str(&mut out, warning.as_str());
        push_str(&mut out, "\n");
    }
    match identification_note(measurement, term_env) {
        Some(note) => {
            push_str(&mut out, note.as_str());
            push_str(&mut out, "\n");
        },
        None => {},
    }
    let id = measurement.id();
    let comparison = against_the_table_with_id(measurement, id.as_str());
    push_str(&mut out, comparison.as_str());
    push_str(&mut out, "\n");
    let text = entry_with_id(measurement, id.as_str());
    push_str(&mut out, text.as_str());
    assert(out@ =~= probe_report_text(measurement@, crate::detect::env::opt_str(term_env)));
    out
}

/// Why probe cannot run on a process with no controlling terminal.
pub const NEEDS_A_TERMINAL: &'static str = "probe needs a terminal to measure; this process has none";

/// Whether probe can measure the terminal detection found, and if not, why: it needs a
/// terminal, and refuses exactly when the process has none.
pub fn refusal(resolution: &Resolution) -> (r: Option<&'static str>)
    ensures
        r is Some <==> resolution@ is NoTty,
        r matches Some(why) ==> why@ == NEEDS_A_TERMINAL@,
{
    match resolution {
        Resolution::NoTty => Some(NEEDS_A_TERMINAL),
        _ => None,
    }
}

/// The probe's report ends with the entry for the terminal, filed under the id the
/// measurement derives; where nothing appeared it opens with the warning that silence
/// may be a permission setting.
pub proof fn the_report_ends_with_the_entry(m: MeasurementModel, term_env: Option<Seq<char>>)
    ensures
        ({
            let r = probe_report_text(m, term_env);
            let e = entry_text(m, measurement_id(m));
            &&& r.len() >= e.len()
            &&& r.skip(r.len() - e.len()) == e
            &&& m.accepts.len() == 0 ==> r.subrange(1, 1 + nothing_appeared_text(m.os).len() as int)
                == nothing_appeared_text(m.os)
        }),
{
    let r = probe_report_text(m, term_env);
    let e = entry_text(m, measurement_id(m));
    let w = if m.accepts.len() == 0 {
        nothing_appeared_text(m.os) + "\n"@
    } else {
        Seq::empty()
    };
    let rest = match note_text(m, term_env) {
        Some(n) => n + "\n"@,
        None => Seq::empty(),
    } + comparison_text(m, measurement_id(m)) + "\n"@;
    assert(r =~= "\n"@ + w + rest + e);
    assert(r.skip(r.len() - e.len()) =~= e);
    reveal_strlit("\n");
    if m.accepts.len() == 0 {
        let n = nothing_appeared_text(m.os);
        assert(r.subrange(1, 1 + n.len() as int) =~= n) by {
            assert forall|i: int| 0 <= i < n.len() implies r[1 + i] == n[i] by {
                assert(r[1 + i] == ("\n"@ + w + rest + e)[1 + i]);
                assert(w[i] == n[i]);
            }
        }
    }
}

/// The line that opens a run.
pub open spec fn intro_text(total: nat) -> Seq<char> {
    "\nSending "@ + decimal(total) + " dialects, one at a time. Say whether a notification appeared.\n\n"@
}

/// The line that opens a run of `total` dialects.
pub fn intro(total: usize) -> (r: String)
    ensures
        r@ == intro_text(total as nat),
{
    let mut out = String::new();
    push_str(&mut out, "\nSending ");
    push_decimal(&mut out, total as u64);
    push_str(&mut out, " dialects, one at a time. Say whether a notification appeared.\n\n");
    out
}

/// The body of the test notification for the `index`th of `total` dialects.
pub open spec fn dialect_body_text(sequence: Sequence, index: nat, total: nat) -> Seq<char> {
    sequence_name(sequence) + " — this is dialect "@ + decimal(index + 1) + " of "@ + decimal(
        total,
    )
}

/// The body of the test notification for the `index`th (from zero) of `total` dialects.
pub fn dialect_body(sequence: Sequence, index: usize, total: usize) -> (r: String)
    requires
        index < total,
    ensures
        r@ == dialect_body_text(sequence, index as nat, total as nat),
{
    let mut out = String::new();
    push_str(&mut out, sequence.name());
    push_str(&mut out, " — this is dialect ");
    push_decimal(&mut out, (index + 1) as u64);
    push_str(&mut out, " of ");
    push_decimal(&mut out, total as u64);
    out
}

/// The question asked after the `index`th of `total` dialects went out.
pub open spec fn question_text(sequence: Sequence, index: nat, total: nat) -> Seq<char> {
    "  ["@ + decimal(index + 1) + "/"@ + decimal(total) + "] Sent "@ + sequence_name(sequence)
        + ". Did a notification appear? [y/n] "@
}

/// The question asked after the `index`th (from zero) of `total` dialects went out.
pub fn question(sequence: Sequence, index: usize, total: usize) -> (r: String)
    requires
        index < total,
    ensures
        r@ == question_text(sequence, index as nat, total as nat),
{
    let mut out = String::new();
    push_str(&mut out, "  [");
    push_decimal(&mut out, (index + 1) as u64);
    push_str(&mut out, "/");
    push_decimal(&mut out, total as u64);
    push_str(&mut out, "] Sent ");
    push_str(&mut out, sequence.name());
    push_str(&mut out, ". Did a notification appear? [y/n] ");
    out
}

/// The bytes that try the `index`th of `total` dialects: a notification titled
/// `peal probe` whose body says which dialect it is, wrapped for tmux where tmux stands
/// in the way.
pub open spec fn trial_bytes(
    sequence: Sequence,
    index: nat,
    total: nat,
    inside_tmux: bool,
    unnamed: Seq<char>,
) -> Seq<u8> {
    let plain = encode_utf8(
        rendered(
            sequence,
            Some("peal probe"@),
            dialect_body_text(sequence, index, total),
            None,
            unnamed,
        ),
    );
    if inside_tmux {
        tmux_wrapped(plain)
    } else {
        plain
    }
}

/// What to send to try the `index`th (from zero) of `total` dialects.
pub fn trial(sequence: Sequence, index: usize, total: usize, inside_tmux: bool, unnamed: &str) -> (r:
    Vec<u8>)
    requires
        index < total,
    ensures
        r@ == trial_bytes(sequence, index as nat, total as nat, inside_tmux, unnamed@),
{
    let body = dialect_body(sequence, index, total);
    let plain = bytes(sequence, Some("peal probe"), body.as_str(), None, unnamed);
    if inside_tmux {
        through_tmux(plain.as_slice())
    } else {
        plain
    }
}

/// The first `n` dialects of `order` that were answered yes, in the order of `order`.
pub open spec fn confirmed(order: Seq<Sequence>, answers: Seq<bool>, n: nat) -> Seq<Sequence>
    decreases n,
{
    if n == 0 {
        Seq::empty()
    } else {
        let before = confirmed(order, answers, (n - 1) as nat);
        if answers[n - 1] {
            before.push(order[n - 1])
        } else {
            before
        }
    }
}

/// How many answers count: one for each dialect tried, and no more than were given.
pub open spec fn answered(answers: Seq<bool>) -> nat {
    if answers.len() < richest_order().len() {
        answers.len()
    } else {
        richest_order().len()
    }
}

/// What a probe records as accepted: the dialects answered yes, the `i`th answer
/// standing for the `i`th dialect tried, richest first.
pub open spec fn recorded_dialects(answers: Seq<bool>) -> Seq<Sequence> {
    confirmed(richest_order(), answers, answered(answers))
}

/// The dialects to record as accepted, given the answers to the dialects tried in the
/// order [`richest_first`] gives them.
pub fn accepted_from(answers: &[bool]) -> (r: Vec<Sequence>)
    ensures
        r@ == recorded_dialects(answers@),
{
    let order = richest_first();
    let n = if answers.len() < order.len() {
        answers.len()
    } else {
        order.len()
    };
    let mut out: Vec<Sequence> = Vec::new();
    let mut i: usize = 0;
    while i < n
        invariant
            order@ == richest_order(),
            n == answered(answers@),
            i <= n,
            n <= answers@.len(),
            n <= order@.len(),
            out@ == confirmed(order@, answers@, i as nat),
        decreases n - i,
    {
        if answers[i] {
            out.push(order[i]);
        }
        i += 1;
    }
    out
}

proof fn lemma_confirmed(order: Seq<Sequence>, answers: Seq<bool>, n: nat)
    requires
        n <= order.len(),
        n <= answers.len(),
    ensures
        forall|s: Sequence|
            #[trigger] confirmed(order, answers, n).contains(s) <==> exists|i: int|
                0 <= i < n && answers[i] && order[i] == s,
    decreases n,
{
    if n > 0 {
        let m = (n - 1) as nat;
        lemma_confirmed(order, answers, m);
        let before = confirmed(order, answers, m);
        assert forall|s: Sequence| #[trigger] confirmed(order, answers, n).contains(s) <==> exists|
            i: int,
        | 0 <= i < n && answers[i] && order[i] == s by {
            let c = confirmed(order, answers, n);
            if c.contains(s) {
                let j = choose|j: int| 0 <= j < c.len() && c[j] == s;
                if j < before.len() {
                    assert(before[j] == s);
                    assert(before.contains(s));
                } else {
                    assert(answers[m as int] && order[m as int] == s);
                }
            }
            if exists|i: int| 0 <= i < n && answers[i] && order[i] == s {
                let i = choose|i: int| 0 <= i < n && answers[i] && order[i] == s;
                if i < m {
                    assert(before.contains(s));
                    let j = choose|j: int| 0 <= j < before.len() && before[j] == s;
                    assert(c[j] == s);
                } else {
                    assert(c[before.len() as int] == s);
                }
            }
        }
    }
}

/// A probe records a dialect exactly when the person at the terminal said a notification
/// appeared for it, and nothing else: the `i`th answer decides the `i`th dialect tried.
pub proof fn what_is_recorded_is_what_was_seen(answers: Seq<bool>)
    ensures
        forall|i: int|
            0 <= i < answered(answers) ==> (recorded_dialects(answers).contains(
                #[trigger] richest_order()[i],
            ) <==> answers[i]),
        forall|s: Sequence|
            #[trigger] recorded_dialects(answers).contains(s) ==> exists|i: int|
                0 <= i < answered(answers) && answers[i] && richest_order()[i] == s,
{
    dialects_go_richest_first();
    lemma_confirmed(richest_order(), answers, answered(answers));
    let o = richest_order();
    assert forall|i: int| 0 <= i < answered(answers) implies (recorded_dialects(answers).contains(
        #[trigger] o[i],
    ) <==> answers[i]) by {
        if recorded_dialects(answers).contains(o[i]) {
            let j = choose|j: int| 0 <= j < answered(answers) && answers[j] && o[j] == o[i];
            assert(j == i);
        }
    }
}

/// Said when an answer was neither yes nor no.
pub const PLEASE_ANSWER: &'static str = "  Please answer y or n.\n";

/// What a lower-cased, trimmed answer means: yes, no, or neither.
pub open spec fn answer_meaning(lowered: Seq<char>) -> Option<bool> {
    if lowered == "y"@ || lowered == "yes"@ {
        Some(true)
    } else if lowered == "n"@ || lowered == "no"@ {
        Some(false)
    } else {
        None
    }
}

/// What a lower-cased, trimmed answer means.
pub fn classify_answer(lowered: &str) -> (r: Option<bool>)
    ensures
        r == answer_meaning(lowered@),
{
    if same_text(lowered, "y") || same_text(lowered, "yes") {
        Some(true)
    } else if same_text(lowered, "n") || same_text(lowered, "no") {
        Some(false)
    } else {
        None
    }
}

/// What a line typed in answer means. A mistyped answer is neither, so that it is asked
/// again rather than recorded as a fact about the terminal.
pub fn interpret_answer(line: &str) -> (r: Option<bool>)
    ensures
        r == answer_meaning(lowercase(trim(line@))),
{
    let v = chars_of(line);
    let (a, b) = trim_bounds(v.as_slice());
    let trimmed = line.substring_char(a, b);
    let lowered = to_lowercase(trimmed);
    classify_answer(lowered.as_str())
}

/// Dialects are tried richest first: OSC 99, which carries title, body and id, then
/// OSC 777, then OSC 9, each carrying no more fields than the one before.
pub proof fn dialects_go_richest_first()
    ensures
        richest_order() == seq![Sequence::Osc99, Sequence::Osc777, Sequence::Osc9],
        forall|i: int, j: int|
            0 <= i < j < richest_order().len() ==> field_count(richest_order()[i]) >= field_count(
                richest_order()[j],
            ),
{
    let t = table().sequences;
    assert(find_capability_is(Sequence::Osc9, 1));
    assert(find_capability_is(Sequence::Osc777, 2)) by {
        assert(crate::find_capability(t.drop_first(), Sequence::Osc777) is Some);
    }
    assert(find_capability_is(Sequence::Osc99, 3)) by {
        assert(crate::find_capability(t.drop_first().drop_first(), Sequence::Osc99) is Some);
        assert(crate::find_capability(t.drop_first(), Sequence::Osc99) is Some);
    }
    let all = all_sequences();
    reveal_with_fuel(with_field_count, 4);
    assert(all.drop_last().drop_last().drop_last() =~= Seq::<Sequence>::empty());
    assert(with_field_count(all, 3) =~= seq![Sequence::Osc99]);
    assert(with_field_count(all, 2) =~= seq![Sequence::Osc777]);
    assert(with_field_count(all, 1) =~= seq![Sequence::Osc9]);
    assert(with_field_count(all, 0) =~= Seq::<Sequence>::empty());
    assert(richest_order() =~= seq![Sequence::Osc99, Sequence::Osc777, Sequence::Osc9]);
}

/// How many fields a dialect carries, in the shipped table.
pub open spec fn find_capability_is(s: Sequence, n: nat) -> bool {
    field_count(s) == n
}

/// A generic TERM value is never recorded, and under tmux neither variable is.
pub proof fn generic_or_borrowed_values_are_not_recorded(
    inside_tmux: bool,
    term_program: Option<Seq<char>>,
    term: Option<Seq<char>>,
)
    ensures
        inside_tmux ==> recorded_environment_of(inside_tmux, term_program, term) == (
        None::<Seq<char>>,
        None::<Seq<char>>,
        ),
        recorded_environment_of(inside_tmux, term_program, term).1 matches Some(t)
            ==> !generic_terms().contains(t) && t.len() > 0,
{
}

} // verus!
