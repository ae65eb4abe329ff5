//! Which escape sequence to send a terminal so it raises a desktop notification.
use vstd::prelude::*;

pub mod cli;
pub mod detect;
pub mod doctor;
pub mod notify;
pub mod probe;
pub mod search;
pub mod text;

use crate::text::same_text;

verus! {

broadcast use vstd::string::group_string_axioms;

/// A notification dialect.
///
/// The set is closed in code rather than open in data: every dialect needs its own
/// byte-assembly routine, so adding one here makes the compiler point at every place
/// that has to handle it.
#[derive(Debug, Clone, Copy, PartialEq, Eq, Structural, PartialOrd, Ord, Hash)]
pub enum Sequence {
    Osc9,
    Osc777,
    Osc99,
}

/// The name a dialect goes by in reports.
pub open spec fn sequence_name(sequence: Sequence) -> Seq<char> {
    match sequence {
        Sequence::Osc9 => "OSC 9"@,
        Sequence::Osc777 => "OSC 777"@,
        Sequence::Osc99 => "OSC 99"@,
    }
}

/// The key a dialect goes by in the capability table.
pub open spec fn sequence_key(sequence: Sequence) -> Seq<char> {
    match sequence {
        Sequence::Osc9 => "osc9"@,
        Sequence::Osc777 => "osc777"@,
        Sequence::Osc99 => "osc99"@,
    }
}

/// Every dialect, in the order the enum lists them.
pub open spec fn all_sequences() -> Seq<Sequence> {
    seq![Sequence::Osc9, Sequence::Osc777, Sequence::Osc99]
}

impl Sequence {
    /// Every dialect, for exhaustiveness checks.
    pub const ALL: [Sequence; 3] = [Sequence::Osc9, Sequence::Osc777, Sequence::Osc99];

    /// The name this dialect goes by in reports, as `OSC 9`.
    pub fn name(&self) -> (r: &'static str)
        ensures
            r@ == sequence_name(*self),
    {
        match self {
            Sequence::Osc9 => "OSC 9",
            Sequence::Osc777 => "OSC 777",
            Sequence::Osc99 => "OSC 99",
        }
    }

    /// The key this dialect goes by in the capability table, as `osc9`.
    pub fn key(&self) -> (r: &'static str)
        ensures
            r@ == sequence_key(*self),
    {
        match self {
            Sequence::Osc9 => "osc9",
            Sequence::Osc777 => "osc777",
            Sequence::Osc99 => "osc99",
        }
    }
}

/// What a dialect can express. A property of the sequence itself, not of any terminal.
#[derive(Debug, Clone)]
pub struct Capability {
    /// Human-readable wire format, for diagnostics.
    pub form: String,
    pub title: bool,
    pub body: bool,
    /// Whether a notification can be replaced or deduplicated.
    pub id: bool,
}

/// One terminal and the dialects it accepts.
#[derive(Debug, Clone, PartialEq, Eq)]
pub struct Terminal {
    pub id: String,
    /// Name reported by XTVERSION, or empty when the terminal does not answer it.
    pub xtversion: String,
    pub term_program: Vec<String>,
    pub term: Vec<String>,
    /// Variables whose presence in the environment names this terminal.
    pub env: Vec<String>,
    /// Ordered, richest first. Resolution takes the first entry that satisfies the request.
    pub accepts: Vec<Sequence>,
    /// True when the entry was confirmed by measurement rather than transcribed from docs.
    pub verified: bool,
    pub tested_version: Option<String>,
}

/// The capability table: what each dialect can carry and which terminals accept which.
#[derive(Debug, Clone)]
pub struct Database {
    pub sequences: Vec<(Sequence, Capability)>,
    pub terminals: Vec<Terminal>,
}

/// What a [`Capability`] says.
pub struct CapabilityModel {
    pub form: Seq<char>,
    pub title: bool,
    pub body: bool,
    pub id: bool,
}

/// What a [`Terminal`] says.
pub struct TerminalModel {
    pub id: Seq<char>,
    pub xtversion: Seq<char>,
    pub term_program: Seq<Seq<char>>,
    pub term: Seq<Seq<char>>,
    pub env: Seq<Seq<char>>,
    pub accepts: Seq<Sequence>,
    pub verified: bool,
    pub tested_version: Option<Seq<char>>,
}

/// What a [`Database`] says.
pub struct DatabaseModel {
    pub sequences: Seq<(Sequence, CapabilityModel)>,
    pub terminals: Seq<TerminalModel>,
}

/// An optional string by its characters.
pub open spec fn opt_view(s: Option<String>) -> Option<Seq<char>> {
    match s {
        Some(s) => Some(s@),
        None => None,
    }
}

impl View for Capability {
    type V = CapabilityModel;

    open spec fn view(&self) -> CapabilityModel {
        CapabilityModel { form: self.form@, title: self.title, body: self.body, id: self.id }
    }
}

impl View for Terminal {
    type V = TerminalModel;

    open spec fn view(&self) -> TerminalModel {
        TerminalModel {
            id: self.id@,
            xtversion: self.xtversion@,
            term_program: self.term_program.deep_view(),
            term: self.term.deep_view(),
            env: self.env.deep_view(),
            accepts: self.accepts@,
            verified: self.verified,
            tested_version: opt_view(self.tested_version),
        }
    }
}

impl View for Database {
    type V = DatabaseModel;

    open spec fn view(&self) -> DatabaseModel {
        DatabaseModel {
            sequences: self.sequences@.map_values(|p: (Sequence, Capability)| (p.0, p.1@)),
            terminals: self.terminals@.map_values(|t: Terminal| t@),
        }
    }
}

/// The capability recorded for `sequence`: the first entry under that key.
pub open spec fn find_capability(
    entries: Seq<(Sequence, CapabilityModel)>,
    sequence: Sequence,
) -> Option<CapabilityModel>
    decreases entries.len(),
{
    if entries.len() == 0 {
        None
    } else if entries[0].0 == sequence {
        Some(entries[0].1)
    } else {
        find_capability(entries.drop_first(), sequence)
    }
}

/// The index of the first terminal with this id.
pub open spec fn find_terminal(terminals: Seq<TerminalModel>, id: Seq<char>) -> Option<int>
    decreases terminals.len(),
{
    if terminals.len() == 0 {
        None
    } else if terminals[0].id == id {
        Some(0)
    } else {
        match find_terminal(terminals.drop_first(), id) {
            Some(i) => Some(i + 1),
            None => None,
        }
    }
}

impl DatabaseModel {
    /// Whether the table describes this dialect.
    pub open spec fn describes(self, sequence: Sequence) -> bool {
        find_capability(self.sequences, sequence) is Some
    }

    /// What the table records of this dialect.
    pub open spec fn capability(self, sequence: Sequence) -> CapabilityModel {
        find_capability(self.sequences, sequence)->0
    }

    /// No dialect has two capability entries, so what the table records of a dialect
    /// is the one entry under its key.
    pub open spec fn each_dialect_once(self) -> bool {
        forall|i: int, j: int|
            0 <= i < j < self.sequences.len() ==> #[trigger] self.sequences[i].0
                != #[trigger] self.sequences[j].0
    }
}

pub open spec fn capability_model(form: Seq<char>, title: bool, body: bool, id: bool) -> CapabilityModel {
    CapabilityModel { form, title, body, id }
}

/// The capability table as it ships.
pub open spec fn table() -> DatabaseModel {
    DatabaseModel {
        sequences: seq![
            (Sequence::Osc9, capability_model("OSC 9 ; <body> BEL"@, false, true, false)),
            (Sequence::Osc777, capability_model("OSC 777 ; notify ; <title> ; <body> BEL"@, true, true, false)),
            (Sequence::Osc99, capability_model("OSC 99 ; i=<id>:d=<done>:p=<field>:e=1 ; <base64> ST"@, true, true, true)),
        ],
        terminals: seq![
            TerminalModel {
                id: "ghostty"@,
                xtversion: "ghostty"@,
                term_program: seq!["ghostty"@],
                term: seq!["xterm-ghostty"@],
                env: seq![],
                accepts: seq![Sequence::Osc777, Sequence::Osc9],
                verified: true,
                tested_version: Some("1.3.1"@),
            },
            TerminalModel {
                id: "kitty"@,
                xtversion: "kitty"@,
                term_program: seq![],
                term: seq!["xterm-kitty"@],
                env: seq![],
                accepts: seq![Sequence::Osc99, Sequence::Osc777, Sequence::Osc9],
                verified: true,
                tested_version: Some("0.48.2"@),
            },
            TerminalModel {
                id: "iterm2"@,
                xtversion: "iTerm2"@,
                term_program: seq!["iTerm.app"@],
                term: seq![],
                env: seq![],
                accepts: seq![Sequence::Osc9],
                verified: true,
                tested_version: Some("3.6.11"@),
            },
            TerminalModel {
                id: "apple-terminal"@,
                xtversion: ""@,
                term_program: seq!["Apple_Terminal"@],
                term: seq![],
                env: seq![],
                accepts: seq![],
                verified: true,
                tested_version: None,
            },
            TerminalModel {
                id: "windows-terminal"@,
                xtversion: ""@,
                term_program: seq![],
                term: seq![],
                env: seq!["WT_SESSION"@],
                accepts: seq![],
                verified: false,
                tested_version: None,
            },
        ],
    }
}

fn owned(s: &str) -> (r: String)
    ensures
        r@ == s@,
{
    s.to_owned()
}

fn capability_entry(sequence: Sequence, form: &str, title: bool, body: bool, id: bool) -> (r: (
    Sequence,
    Capability,
))
    ensures
        r.0 == sequence,
        r.1@ == capability_model(form@, title, body, id),
{
    (sequence, Capability { form: owned(form), title, body, id })
}

impl Database {
    /// What the given dialect can express.
    ///
    /// Only asked of a dialect the table describes, which the shipped table does for
    /// every dialect.
    pub fn capability(&self, sequence: Sequence) -> (r: &Capability)
        requires
            self@.describes(sequence),
        ensures
            r@ == self@.capability(sequence),
    {
        let mut i: usize = 0;
        assert(self@.sequences.skip(0) =~= self@.sequences);
        while i < self.sequences.len()
            invariant
                i <= self.sequences@.len(),
                find_capability(self@.sequences, sequence) == find_capability(
                    self@.sequences.skip(i as int),
                    sequence,
                ),
                find_capability(self@.sequences, sequence) is Some,
            decreases self.sequences@.len() - i,
        {
            let ghost rest = self@.sequences.skip(i as int);
            assert(rest[0] == (self.sequences@[i as int].0, self.sequences@[i as int].1@));
            if self.sequences[i].0 == sequence {
                return &self.sequences[i].1;
            }
            assert(rest.drop_first() =~= self@.sequences.skip(i + 1));
            i += 1;
        }
        proof {
            assert(self@.sequences.skip(i as int) =~= Seq::<(Sequence, CapabilityModel)>::empty());
        }
        &self.sequences[0].1
    }

    /// The terminal with the given id.
    pub fn terminal(&self, id: &str) -> (r: Option<&Terminal>)
        ensures
            match find_terminal(self@.terminals, id@) {
                Some(i) => r matches Some(t) && t@ == self@.terminals[i],
                None => r is None,
            },
    {
        match self.terminal_index(id) {
            Some(i) => {
                let t = &self.terminals[i];
                assert(self@.terminals[i as int] == t@);
                assert(find_terminal(self@.terminals, id@) == Some(i as int));
                Some(t)
            },
            None => None,
        }
    }

    /// Where in the table the terminal with the given id stands.
    pub fn terminal_index(&self, id: &str) -> (r: Option<usize>)
        ensures
            r matches Some(i) ==> find_terminal(self@.terminals, id@) == Some(i as int) && i
                < self@.terminals.len(),
            r is None ==> find_terminal(self@.terminals, id@) is None,
    {
        let mut i: usize = 0;
        while i < self.terminals.len()
            invariant
                i <= self.terminals@.len(),
                forall|j: int| 0 <= j < i ==> self@.terminals[j].id != id@,
                forall|j: int| 0 <= j < i ==> #[trigger] self.terminals@[j]@.id != id@,
            decreases self.terminals@.len() - i,
        {
            if same_text(self.terminals[i].id.as_str(), id) {
                proof { lemma_find_terminal_first(self@.terminals, id@, i as int); }
                return Some(i);
            }
            i += 1;
        }
        proof { lemma_find_terminal_first(self@.terminals, id@, i as int); }
        None
    }
}

proof fn lemma_find_terminal_first(terminals: Seq<TerminalModel>, id: Seq<char>, k: int)
    requires
        0 <= k <= terminals.len(),
        forall|j: int| 0 <= j < k ==> terminals[j].id != id,
    ensures
        k < terminals.len() && terminals[k].id == id ==> find_terminal(terminals, id) == Some(k),
        k == terminals.len() ==> find_terminal(terminals, id) is None,
    decreases k,
{
    if k > 0 {
        let t = terminals.drop_first();
        assert forall|j: int| 0 <= j < k - 1 implies t[j].id != id by {
            assert(terminals[j + 1].id != id);
        }
        lemma_find_terminal_first(t, id, k - 1);
    }
}

fn strings0() -> (r: Vec<String>)
    ensures
        r.deep_view() == Seq::<Seq<char>>::empty(),
{
    let r: Vec<String> = Vec::new();
    assert(r.deep_view() =~= Seq::<Seq<char>>::empty());
    r
}

fn strings1(a: &str) -> (r: Vec<String>)
    ensures
        r.deep_view() == seq![a@],
{
    let r = vec![owned(a)];
    assert(r.deep_view() =~= seq![a@]);
    r
}

fn terminal_entry(
    id: &str,
    xtversion: &str,
    term_program: Vec<String>,
    term: Vec<String>,
    env: Vec<String>,
    accepts: Vec<Sequence>,
    verified: bool,
    tested_version: Option<String>,
) -> (r: Terminal)
    ensures
        r@ == (TerminalModel {
            id: id@,
            xtversion: xtversion@,
            term_program: term_program.deep_view(),
            term: term.deep_view(),
            env: env.deep_view(),
            accepts: accepts@,
            verified,
            tested_version: opt_view(tested_version),
        }),
{
    Terminal {
        id: owned(id),
        xtversion: owned(xtversion),
        term_program,
        term,
        env,
        accepts,
        verified,
        tested_version,
    }
}

/// The capability table, as shipped with the crate.
pub fn database() -> (db: Database)
    ensures
        db@ == table(),
        db@.each_dialect_once(),
{
    proof { no_dialect_is_recorded_twice(); }
    let sequences = vec![
        capability_entry(Sequence::Osc9, "OSC 9 ; <body> BEL", false, true, false),
        capability_entry(Sequence::Osc777, "OSC 777 ; notify ; <title> ; <body> BEL", true, true, false),
        capability_entry(Sequence::Osc99, "OSC 99 ; i=<id>:d=<done>:p=<field>:e=1 ; <base64> ST", true, true, true),
    ];
    let terminals = vec![
        terminal_entry("ghostty", "ghostty", strings1("ghostty"), strings1("xterm-ghostty"), strings0(),
            vec![Sequence::Osc777, Sequence::Osc9], true, Some(owned("1.3.1"))),
        terminal_entry("kitty", "kitty", strings0(), strings1("xterm-kitty"), strings0(),
            vec![Sequence::Osc99, Sequence::Osc777, Sequence::Osc9], true, Some(owned("0.48.2"))),
        terminal_entry("iterm2", "iTerm2", strings1("iTerm.app"), strings0(), strings0(),
            vec![Sequence::Osc9], true, Some(owned("3.6.11"))),
        terminal_entry("apple-terminal", "", strings1("Apple_Terminal"), strings0(), strings0(),
            vec![], true, None),
        terminal_entry("windows-terminal", "", strings0(), strings0(), strings1("WT_SESSION"),
            vec![], false, None),
    ];
    let db = Database { sequences, terminals };
    assert(db@.sequences =~= table().sequences);
    assert(db@.terminals[0] == table().terminals[0]);
    assert(db@.terminals[1] == table().terminals[1]);
    assert(db.terminals@[2].accepts@ == seq![Sequence::Osc9]);
    assert(db.terminals@[2].term_program.deep_view() == seq!["iTerm.app"@]);
    assert(opt_view(db.terminals@[2].tested_version) == Some("3.6.11"@));
    assert(db@.terminals[2] == table().terminals[2]);
    assert(db@.terminals[3] == table().terminals[3]);
    assert(db@.terminals[4] == table().terminals[4]);
    assert(db@.terminals =~= table().terminals);
    db
}

/// Every dialect has exactly one capability entry in the shipped table, and the table
/// describes no dialect the enum does not list.
pub proof fn every_dialect_has_a_capability()
    ensures
        forall|s: Sequence| #[trigger] table().describes(s),
        table().sequences.len() == all_sequences().len(),
        forall|i: int, j: int|
            0 <= i < j < table().sequences.len() ==> table().sequences[i].0 != table().sequences[j].0,
{
    let t = table().sequences;
    assert(t.drop_first().drop_first()[0].0 == Sequence::Osc99);
    assert forall|s: Sequence| #[trigger] table().describes(s) by {
        assert(find_capability(t.drop_first().drop_first(), Sequence::Osc99) is Some);
        assert(find_capability(t.drop_first(), Sequence::Osc777) is Some);
        match s {
            Sequence::Osc9 => {},
            Sequence::Osc777 => {},
            Sequence::Osc99 => {
                assert(find_capability(t.drop_first(), Sequence::Osc99) is Some);
            },
        }
    }
}

/// The shipped table records no dialect twice.
pub proof fn no_dialect_is_recorded_twice()
    ensures
        table().each_dialect_once(),
{
    every_dialect_has_a_capability();
}

/// Every dialect a terminal in the shipped table accepts has its capability recorded.
pub proof fn accepted_dialects_are_described()
    ensures
        forall|i: int, j: int|
            0 <= i < table().terminals.len() && 0 <= j < table().terminals[i].accepts.len()
                ==> table().describes(#[trigger] table().terminals[i].accepts[j]),
{
    every_dialect_has_a_capability();
}

/// No two terminals in the shipped table share an id.
pub proof fn terminal_ids_are_unique()
    ensures
        forall|i: int, j: int|
            0 <= i < table().terminals.len() && 0 <= j < table().terminals.len() && i != j
                ==> #[trigger] table().terminals[i].id != #[trigger] table().terminals[j].id,
{
    reveal_strlit("ghostty");
    reveal_strlit("kitty");
    reveal_strlit("iterm2");
    reveal_strlit("apple-terminal");
    reveal_strlit("windows-terminal");
    let t = table().terminals;
    assert(t[0].id[0] != t[1].id[0]);
    assert(t[0].id[0] != t[2].id[0]);
    assert(t[0].id[0] != t[3].id[0]);
    assert(t[0].id[0] != t[4].id[0]);
    assert(t[1].id[0] != t[2].id[0]);
    assert(t[1].id[0] != t[3].id[0]);
    assert(t[1].id[0] != t[4].id[0]);
    assert(t[2].id[0] != t[3].id[0]);
    assert(t[2].id[0] != t[4].id[0]);
    assert(t[3].id[0] != t[4].id[0]);
}

/// Every terminal in the shipped table can be recognised some way: by the name it
/// answers XTVERSION with, or by something it leaves in the environment.
pub proof fn every_terminal_is_identifiable()
    ensures
        forall|i: int|
            0 <= i < table().terminals.len() ==> {
                let t = #[trigger] table().terminals[i];
                t.xtversion.len() > 0 || t.term_program.len() > 0 || t.term.len() > 0 || t.env.len()
                    > 0
            },
{
    reveal_strlit("ghostty");
    reveal_strlit("kitty");
    reveal_strlit("iTerm2");
}

/// OSC 9 has no title field; OSC 777 has one.
pub proof fn osc9_carries_no_title()
    ensures
        !table().capability(Sequence::Osc9).title,
        table().capability(Sequence::Osc777).title,
{
    assert(find_capability(table().sequences.drop_first(), Sequence::Osc777) is Some);
}

} // verus!
