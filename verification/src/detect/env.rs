//! Identifying a terminal from the capability table. Pure lookups, no I/O.
use vstd::prelude::*;

use crate::search::{find_first, lemma_find_first};
use crate::text::{eq_ignore_ascii_case, same_ignoring_ascii_case};
use crate::{Database, DatabaseModel, Terminal, TerminalModel};

verus! {

/// How a terminal was identified. Recorded because the routes do not carry the same
/// weight: XTVERSION comes from the terminal itself, while the environment variables are
/// inherited and survive into whatever the terminal spawns.
#[derive(Debug, Clone, PartialEq, Eq)]
pub enum Evidence {
    /// The terminal named itself in reply to XTVERSION.
    XtVersion,
    /// The terminal named itself, but only because the question was passed through tmux
    /// to reach it. Worth telling apart: it means tmux's `allow-passthrough` is on, and
    /// so everything else peal sends will reach the terminal too.
    XtVersionThroughTmux,
    TermProgram,
    /// A variable whose presence names the terminal, carried here so the report can say
    /// which one it was. Weaker than a query and no stronger than `TERM_PROGRAM`: it is
    /// inherited by everything the terminal spawns.
    EnvMarker(String),
    Term,
}

/// What an [`Evidence`] says.
pub enum EvidenceModel {
    XtVersion,
    XtVersionThroughTmux,
    TermProgram,
    EnvMarker(Seq<char>),
    Term,
}

impl View for Evidence {
    type V = EvidenceModel;

    open spec fn view(&self) -> EvidenceModel {
        match self {
            Evidence::XtVersion => EvidenceModel::XtVersion,
            Evidence::XtVersionThroughTmux => EvidenceModel::XtVersionThroughTmux,
            Evidence::TermProgram => EvidenceModel::TermProgram,
            Evidence::EnvMarker(m) => EvidenceModel::EnvMarker(m@),
            Evidence::Term => EvidenceModel::Term,
        }
    }
}

/// An optional string slice by its characters.
pub open spec fn opt_str(s: Option<&str>) -> Option<Seq<char>> {
    match s {
        Some(s) => Some(s@),
        None => None,
    }
}

/// The strings of a slice by their characters.
pub open spec fn strs(s: &[&str]) -> Seq<Seq<char>> {
    s@.map_values(|x: &str| x@)
}

/// Whether some entry of `list` equals `value`, ignoring ASCII case.
pub open spec fn any_ignore_case(list: Seq<Seq<char>>, value: Seq<char>) -> bool {
    exists|k: int| 0 <= k < list.len() && eq_ignore_ascii_case(#[trigger] list[k], value)
}

/// A terminal whose XTVERSION name is `name`; an empty name in the table matches nothing.
pub open spec fn xtversion_matches(name: Seq<char>) -> spec_fn(TerminalModel) -> bool {
    |t: TerminalModel| t.xtversion.len() > 0 && eq_ignore_ascii_case(t.xtversion, name)
}

/// A terminal that lists `value` among its `TERM_PROGRAM` values.
pub open spec fn program_matches(value: Seq<char>) -> spec_fn(TerminalModel) -> bool {
    |t: TerminalModel| any_ignore_case(t.term_program, value)
}

/// A terminal that lists `value` among its `TERM` values.
pub open spec fn term_matches(value: Seq<char>) -> spec_fn(TerminalModel) -> bool {
    |t: TerminalModel| any_ignore_case(t.term, value)
}

/// A marker variable that is among those present.
pub open spec fn marker_present(present: Seq<Seq<char>>) -> spec_fn(Seq<char>) -> bool {
    |m: Seq<char>| any_ignore_case(present, m)
}

/// A terminal one of whose marker variables is present.
pub open spec fn has_marker(present: Seq<Seq<char>>) -> spec_fn(TerminalModel) -> bool {
    |t: TerminalModel| find_first(t.env, marker_present(present)) is Some
}

/// A value that is set to something.
pub open spec fn set_value(value: Option<Seq<char>>) -> Option<Seq<char>> {
    match value {
        Some(v) => if v.len() > 0 { Some(v) } else { None },
        None => None,
    }
}

/// The terminal the environment names, by index, with what named it: `TERM_PROGRAM`
/// first, then a marker variable, then `TERM`, each taking the first terminal in the
/// table that matches.
pub open spec fn env_match(
    db: DatabaseModel,
    term_program: Option<Seq<char>>,
    present: Seq<Seq<char>>,
    term: Option<Seq<char>>,
) -> Option<(int, EvidenceModel)> {
    let by_program = match set_value(term_program) {
        Some(v) => find_first(db.terminals, program_matches(v)),
        None => None,
    };
    match by_program {
        Some(i) => Some((i, EvidenceModel::TermProgram)),
        None => match find_first(db.terminals, has_marker(present)) {
            Some(i) => {
                let t = db.terminals[i];
                Some((i, EvidenceModel::EnvMarker(t.env[find_first(t.env, marker_present(present))->0])))
            },
            None => match set_value(term) {
                Some(v) => match find_first(db.terminals, term_matches(v)) {
                    Some(i) => Some((i, EvidenceModel::Term)),
                    None => None,
                },
                None => None,
            },
        },
    }
}

/// Where the terminal whose XTVERSION name matches stands in the table.
pub fn xtversion_index(db: &Database, name: &str) -> (r: Option<usize>)
    ensures
        r matches Some(i) ==> find_first(db@.terminals, xtversion_matches(name@)) == Some(
            i as int,
        ) && i < db@.terminals.len(),
        r is None ==> find_first(db@.terminals, xtversion_matches(name@)) is None,
{
    let ghost p = xtversion_matches(name@);
    let mut i: usize = 0;
    while i < db.terminals.len()
        invariant
            i <= db@.terminals.len(),
            p == xtversion_matches(name@),
            forall|j: int| 0 <= j < i ==> !p(#[trigger] db@.terminals[j]),
        decreases db@.terminals.len() - i,
    {
        let t = &db.terminals[i];
        assert(db@.terminals[i as int] == t@);
        if !t.xtversion.as_str().is_empty() && same_ignoring_ascii_case(t.xtversion.as_str(), name) {
            proof { lemma_find_first(db@.terminals, p, i as int); }
            return Some(i);
        }
        i += 1;
    }
    proof { lemma_find_first(db@.terminals, p, i as int); }
    None
}

/// The terminal whose XTVERSION name matches, comparing case-insensitively because the
/// replies are not consistently cased (`iTerm2`, `ghostty`).
pub fn by_xtversion<'a>(db: &'a Database, name: &str) -> (r: Option<&'a Terminal>)
    ensures
        match find_first(db@.terminals, xtversion_matches(name@)) {
            Some(i) => r matches Some(t) && t@ == db@.terminals[i],
            None => r is None,
        },
{
    match xtversion_index(db, name) {
        Some(i) => {
            let t = &db.terminals[i];
            assert(db@.terminals[i as int] == t@);
            Some(t)
        },
        None => None,
    }
}

/// Every marker variable the table names, in table order. They come from the data so
/// that recording a new one needs no code.
pub fn marker_names(db: &Database) -> (r: Vec<String>)
    ensures
        r.deep_view() == db@.terminals.map_values(|t: TerminalModel| t.env).flatten(),
{
    let ghost envs = db@.terminals.map_values(|t: TerminalModel| t.env);
    let mut r: Vec<String> = Vec::new();
    let mut i: usize = 0;
    while i < db.terminals.len()
        invariant
            i <= db@.terminals.len(),
            envs == db@.terminals.map_values(|t: TerminalModel| t.env),
            r.deep_view() == envs.take(i as int).flatten(),
        decreases db@.terminals.len() - i,
    {
        let t = &db.terminals[i];
        assert(db@.terminals[i as int] == t@);
        let ghost before = r.deep_view();
        let mut k: usize = 0;
        while k < t.env.len()
            invariant
                k <= t.env@.len(),
                r.deep_view() == before + t.env.deep_view().take(k as int),
            decreases t.env@.len() - k,
        {
            let ghost r0 = r@;
            let name = t.env[k].clone();
            assert(name@ == t.env.deep_view()[k as int]);
            r.push(name);
            assert(r@ == r0.push(name));
            assert(r.deep_view() =~= before + t.env.deep_view().take(k as int) + seq![name@]);
            k += 1;
            assert(t.env.deep_view().take(k as int) =~= t.env.deep_view().take(k - 1) + seq![name@]);
            assert(r.deep_view() =~= before + t.env.deep_view().take(k as int));
        }
        proof {
            assert(t.env.deep_view().take(k as int) =~= t.env.deep_view());
            assert(envs.take(i + 1) =~= envs.take(i as int).push(t@.env));
            envs.take(i as int).lemma_flatten_push(t@.env);
        }
        i += 1;
    }
    assert(envs.take(i as int) =~= envs);
    r
}

/// Whether some entry of `list` equals `value`, ignoring ASCII case.
fn list_has(list: &Vec<String>, value: &str) -> (r: bool)
    ensures
        r == any_ignore_case(list.deep_view(), value@),
{
    let mut k: usize = 0;
    while k < list.len()
        invariant
            k <= list@.len(),
            forall|j: int| 0 <= j < k ==> !eq_ignore_ascii_case(#[trigger] list.deep_view()[j], value@),
        decreases list@.len() - k,
    {
        if same_ignoring_ascii_case(list[k].as_str(), value) {
            assert(list.deep_view()[k as int] == list@[k as int]@);
            return true;
        }
        k += 1;
    }
    false
}

/// Whether some of the present variables is `name`, ignoring ASCII case.
fn present_has(present: &[&str], name: &str) -> (r: bool)
    ensures
        r == any_ignore_case(strs(present), name@),
{
    let mut k: usize = 0;
    while k < present.len()
        invariant
            k <= present@.len(),
            forall|j: int| 0 <= j < k ==> !eq_ignore_ascii_case(#[trigger] strs(present)[j], name@),
        decreases present@.len() - k,
    {
        if same_ignoring_ascii_case(present[k], name) {
            assert(strs(present)[k as int] == present@[k as int]@);
            return true;
        }
        k += 1;
    }
    false
}

/// The first of a terminal's marker variables that is present.
fn marker_index(t: &Terminal, present: &[&str]) -> (r: Option<usize>)
    ensures
        r matches Some(k) ==> find_first(t@.env, marker_present(strs(present))) == Some(k as int)
            && k < t@.env.len(),
        r is None ==> find_first(t@.env, marker_present(strs(present))) is None,
{
    let ghost p = marker_present(strs(present));
    let mut k: usize = 0;
    while k < t.env.len()
        invariant
            k <= t@.env.len(),
            p == marker_present(strs(present)),
            forall|j: int| 0 <= j < k ==> !p(#[trigger] t@.env[j]),
        decreases t@.env.len() - k,
    {
        assert(t@.env[k as int] == t.env@[k as int]@);
        if present_has(present, t.env[k].as_str()) {
            proof { lemma_find_first(t@.env, p, k as int); }
            return Some(k);
        }
        k += 1;
    }
    proof { lemma_find_first(t@.env, p, k as int); }
    None
}

/// The first terminal satisfying a list test on `TERM_PROGRAM` (`programs`) or `TERM`.
fn list_match_index(db: &Database, value: &str, programs: bool) -> (r: Option<usize>)
    ensures
        ({
            let p = if programs { program_matches(value@) } else { term_matches(value@) };
            &&& r matches Some(i) ==> find_first(db@.terminals, p) == Some(i as int) && i
                < db@.terminals.len()
            &&& r is None ==> find_first(db@.terminals, p) is None
        }),
{
    let ghost p = if programs { program_matches(value@) } else { term_matches(value@) };
    let mut i: usize = 0;
    while i < db.terminals.len()
        invariant
            i <= db@.terminals.len(),
            p == (if programs { program_matches(value@) } else { term_matches(value@) }),
            forall|j: int| 0 <= j < i ==> !p(#[trigger] db@.terminals[j]),
        decreases db@.terminals.len() - i,
    {
        let t = &db.terminals[i];
        assert(db@.terminals[i as int] == t@);
        let found = if programs { list_has(&t.term_program, value) } else { list_has(&t.term, value) };
        if found {
            proof { lemma_find_first(db@.terminals, p, i as int); }
            return Some(i);
        }
        i += 1;
    }
    proof { lemma_find_first(db@.terminals, p, i as int); }
    None
}

/// The first terminal one of whose marker variables is present, with that marker.
fn marker_match_index(db: &Database, present: &[&str]) -> (r: Option<(usize, usize)>)
    ensures
        r matches Some((i, k)) ==> find_first(db@.terminals, has_marker(strs(present))) == Some(
            i as int,
        ) && i < db@.terminals.len() && find_first(
            db@.terminals[i as int].env,
            marker_present(strs(present)),
        ) == Some(k as int) && k < db@.terminals[i as int].env.len(),
        r is None ==> find_first(db@.terminals, has_marker(strs(present))) is None,
{
    let ghost p = has_marker(strs(present));
    let mut i: usize = 0;
    while i < db.terminals.len()
        invariant
            i <= db@.terminals.len(),
            p == has_marker(strs(present)),
            forall|j: int| 0 <= j < i ==> !p(#[trigger] db@.terminals[j]),
        decreases db@.terminals.len() - i,
    {
        let t = &db.terminals[i];
        assert(db@.terminals[i as int] == t@);
        if let Some(k) = marker_index(t, present) {
            proof { lemma_find_first(db@.terminals, p, i as int); }
            return Some((i, k));
        }
        i += 1;
    }
    proof { lemma_find_first(db@.terminals, p, i as int); }
    None
}

fn set_str<'a>(value: Option<&'a str>) -> (r: Option<&'a str>)
    ensures
        opt_str(r) == set_value(opt_str(value)),
{
    match value {
        Some(v) => if v.is_empty() { None } else { Some(v) },
        None => None,
    }
}

/// Where the terminal the environment names stands in the table, with the evidence.
pub fn env_match_index(
    db: &Database,
    term_program: Option<&str>,
    present: &[&str],
    term: Option<&str>,
) -> (r: Option<(usize, Evidence)>)
    ensures
        match env_match(db@, opt_str(term_program), strs(present), opt_str(term)) {
            Some((i, e)) => r matches Some((j, f)) && j == i && f@ == e && i < db@.terminals.len(),
            None => r is None,
        },
{
    if let Some(value) = set_str(term_program) {
        if let Some(i) = list_match_index(db, value, true) {
            return Some((i, Evidence::TermProgram));
        }
    }
    if let Some((i, k)) = marker_match_index(db, present) {
        let t = &db.terminals[i];
        assert(db@.terminals[i as int] == t@);
        assert(t@.env[k as int] == t.env@[k as int]@);
        let marker = t.env[k].clone();
        return Some((i, Evidence::EnvMarker(marker)));
    }
    if let Some(value) = set_str(term) {
        if let Some(i) = list_match_index(db, value, false) {
            return Some((i, Evidence::Term));
        }
    }
    None
}

/// The terminal matching the environment, with the evidence that identified it.
///
/// Three channels in descending order of what they prove. `TERM_PROGRAM` names an
/// application. A marker variable names one too, but only terminals that set no
/// `TERM_PROGRAM` need it, so it never competes with one. `TERM` names a terminfo entry
/// that another terminal may deliberately claim, and comes last for that reason.
///
/// `present` holds the marker variables found set in the environment, by name.
pub fn by_env<'a>(
    db: &'a Database,
    term_program: Option<&str>,
    present: &[&str],
    term: Option<&str>,
) -> (r: Option<(&'a Terminal, Evidence)>)
    ensures
        match env_match(db@, opt_str(term_program), strs(present), opt_str(term)) {
            Some((i, e)) => r matches Some((t, f)) && t@ == db@.terminals[i] && f@ == e,
            None => r is None,
        },
{
    match env_match_index(db, term_program, present, term) {
        Some((i, e)) => {
            let t = &db.terminals[i];
            assert(db@.terminals[i as int] == t@);
            Some((t, e))
        },
        None => None,
    }
}

} // verus!
