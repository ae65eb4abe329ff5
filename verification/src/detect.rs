//! Working out which terminal we are talking to.
//!
//! Two routes, because neither covers the field on its own: XTVERSION is the only way
//! to recognise a terminal that sets no `TERM_PROGRAM` (kitty), and the environment is
//! the only way to recognise one that does not answer XTVERSION (Terminal.app).
//!
//! Gathering the signals touches the terminal and the environment; deciding what they
//! mean is [`resolve_from`], which does neither.
pub mod env;
pub mod parse;
pub mod query;

use vstd::prelude::*;

pub use env::{Evidence, EvidenceModel};
pub use query::Route;

use crate::search::{find_first, lemma_find_first};
use crate::{database, opt_view, table, DatabaseModel, Terminal, TerminalModel};
use env::{env_match, env_match_index, opt_str, strs, xtversion_index, xtversion_matches};

verus! {

/// What detection concluded. Deliberately more than "a terminal or nothing": the caller
/// needs to distinguish a terminal we have measured from one we are extrapolating to,
/// and both from an environment where notifying makes no sense at all.
#[derive(Debug, Clone, PartialEq)]
pub enum Resolution {
    /// A terminal listed in the capability table, with the evidence that identified it.
    Known {
        terminal: Terminal,
        evidence: Evidence,
        /// The version this terminal reported just now, where it reported one.
        ///
        /// Not the same thing as [`Terminal::tested_version`], which records the version
        /// the table entry was measured against and may be several releases behind what
        /// is actually running.
        version: Option<String>,
    },
    /// The terminal named itself but is absent from the table.
    ///
    /// It answers XTVERSION, which every OSC-capable terminal measured so far also does,
    /// so OSC 9 is the reasonable guess. It stays a guess, and this variant exists so
    /// callers and `doctor` can say so rather than presenting it as fact.
    UnknownButModern { name: String, version: Option<String> },
    /// A terminal is attached but would not identify itself. Only the bell is safe.
    Unknown,
    /// No controlling terminal — a pipe, a cron job, CI. Nothing to notify.
    NoTty,
}

/// What a [`Resolution`] says.
pub enum ResolutionModel {
    Known { terminal: TerminalModel, evidence: EvidenceModel, version: Option<Seq<char>> },
    UnknownButModern { name: Seq<char>, version: Option<Seq<char>> },
    Unknown,
    NoTty,
}

impl View for Resolution {
    type V = ResolutionModel;

    open spec fn view(&self) -> ResolutionModel {
        match self {
            Resolution::Known { terminal, evidence, version } => ResolutionModel::Known {
                terminal: terminal@,
                evidence: evidence@,
                version: opt_view(*version),
            },
            Resolution::UnknownButModern { name, version } => ResolutionModel::UnknownButModern {
                name: name@,
                version: opt_view(*version),
            },
            Resolution::Unknown => ResolutionModel::Unknown,
            Resolution::NoTty => ResolutionModel::NoTty,
        }
    }
}

/// Everything the terminal and the environment said, before any of it is interpreted.
#[derive(Debug, Clone, Copy, Default)]
pub struct Signals<'a> {
    pub xtversion_name: Option<&'a str>,
    pub xtversion_version: Option<&'a str>,
    /// How the question reached the terminal, which decides what an answer proves.
    pub route: Route,
    pub term_program: Option<&'a str>,
    /// The marker variables the table names that are set in the environment.
    pub markers: &'a [&'a str],
    pub term: Option<&'a str>,
}

/// What a [`Signals`] says.
pub struct SignalsModel {
    pub xtversion_name: Option<Seq<char>>,
    pub xtversion_version: Option<Seq<char>>,
    pub route: Route,
    pub term_program: Option<Seq<char>>,
    pub markers: Seq<Seq<char>>,
    pub term: Option<Seq<char>>,
}

impl<'a> View for Signals<'a> {
    type V = SignalsModel;

    open spec fn view(&self) -> SignalsModel {
        SignalsModel {
            xtversion_name: opt_str(self.xtversion_name),
            xtversion_version: opt_str(self.xtversion_version),
            route: self.route,
            term_program: opt_str(self.term_program),
            markers: strs(self.markers),
            term: opt_str(self.term),
        }
    }
}

/// The evidence a terminal's own answer carries, by the route it came back on.
pub open spec fn named_itself(route: Route) -> EvidenceModel {
    match route {
        Route::Direct => EvidenceModel::XtVersion,
        Route::ThroughTmux => EvidenceModel::XtVersionThroughTmux,
    }
}

/// What the signals identify, against the table `db`.
///
/// The terminal's own answer comes first: a name the table knows decides, whatever the
/// environment says. A name the table does not know still lets the environment decide,
/// since a match there is firmer than a guess; only when that fails too is the terminal
/// reported as an unlisted one. With no answer at all the environment alone decides.
pub open spec fn resolution_of(db: DatabaseModel, s: SignalsModel) -> ResolutionModel {
    let by_env = env_match(db, s.term_program, s.markers, s.term);
    match s.xtversion_name {
        Some(name) => match find_first(db.terminals, xtversion_matches(name)) {
            Some(i) => ResolutionModel::Known {
                terminal: db.terminals[i],
                evidence: named_itself(s.route),
                version: s.xtversion_version,
            },
            None => match by_env {
                Some((i, e)) => ResolutionModel::Known {
                    terminal: db.terminals[i],
                    evidence: e,
                    version: s.xtversion_version,
                },
                None => ResolutionModel::UnknownButModern { name, version: s.xtversion_version },
            },
        },
        None => match by_env {
            Some((i, e)) => ResolutionModel::Known { terminal: db.terminals[i], evidence: e, version: None },
            None => ResolutionModel::Unknown,
        },
    }
}

fn owned_opt(s: Option<&str>) -> (r: Option<String>)
    ensures
        opt_view(r) == opt_str(s),
{
    match s {
        Some(s) => Some(s.to_owned()),
        None => None,
    }
}

/// The decision itself, separated from the I/O that gathers its inputs so it can be
/// tested against terminals that are not installed on the machine running the tests.
pub fn resolve_from(signals: Signals<'_>) -> (r: Resolution)
    ensures
        r@ == resolution_of(table(), signals@),
{
    let mut db = database();
    let version = owned_opt(signals.xtversion_version);
    let named = match signals.route {
        Route::Direct => Evidence::XtVersion,
        Route::ThroughTmux => Evidence::XtVersionThroughTmux,
    };
    let by_env = env_match_index(&db, signals.term_program, signals.markers, signals.term);
    if let Some(name) = signals.xtversion_name {
        if let Some(i) = xtversion_index(&db, name) {
            let terminal = db.terminals.remove(i);
            return Resolution::Known { terminal, evidence: named, version };
        }
        // The environment still gets a say: a terminal we do not recognise by name may
        // yet be one the table knows, and a match there is firmer than the guess below.
        if let Some((i, evidence)) = by_env {
            let terminal = db.terminals.remove(i);
            return Resolution::Known { terminal, evidence, version };
        }
        return Resolution::UnknownButModern { name: name.to_owned(), version };
    }
    match by_env {
        // A terminal that answers no XTVERSION reports no version either; the table
        // knows what it can do, not which release is running.
        Some((i, evidence)) => {
            let terminal = db.terminals.remove(i);
            Resolution::Known { terminal, evidence, version: None }
        },
        None => Resolution::Unknown,
    }
}

/// The terminal's own answer comes first: a name the table knows decides, whatever the
/// environment says, and carries the version reported with it.
pub proof fn the_terminals_own_answer_wins(db: DatabaseModel, s: SignalsModel, i: int)
    requires
        s.xtversion_name matches Some(name) && find_first(db.terminals, xtversion_matches(name))
            == Some(i),
    ensures
        resolution_of(db, s) == (ResolutionModel::Known {
            terminal: db.terminals[i],
            evidence: named_itself(s.route),
            version: s.xtversion_version,
        }),
{
}

/// A name the table does not know does not discard an environment it does: the
/// environment decides, and only when it cannot is the terminal an unlisted one.
pub proof fn an_unknown_name_lets_the_environment_decide(db: DatabaseModel, s: SignalsModel)
    requires
        s.xtversion_name matches Some(name) && find_first(db.terminals, xtversion_matches(name))
            is None,
    ensures
        match env_match(db, s.term_program, s.markers, s.term) {
            Some((i, e)) => resolution_of(db, s) == (ResolutionModel::Known {
                terminal: db.terminals[i],
                evidence: e,
                version: s.xtversion_version,
            }),
            None => resolution_of(db, s) == (ResolutionModel::UnknownButModern {
                name: s.xtversion_name->0,
                version: s.xtversion_version,
            }),
        },
{
}

/// A terminal that gave no name is never reported as an unlisted one, and a terminal
/// identified by the environment alone is reported with no version.
pub proof fn a_silent_terminal_is_known_or_unknown(db: DatabaseModel, s: SignalsModel)
    requires
        s.xtversion_name is None,
    ensures
        resolution_of(db, s) is Unknown || resolution_of(db, s) matches ResolutionModel::Known {
            version: None,
            ..
        },
{
}

/// In the environment a named application outranks a marker variable, and a marker
/// variable outranks `TERM`.
pub proof fn the_environment_is_read_in_order_of_weight(
    db: DatabaseModel,
    term_program: Option<Seq<char>>,
    present: Seq<Seq<char>>,
    term: Option<Seq<char>>,
)
    ensures
        env::set_value(term_program) matches Some(v) && find_first(db.terminals, env::program_matches(v)) is Some
            ==> env_match(db, term_program, present, term) matches Some((_, EvidenceModel::TermProgram)),
        (env::set_value(term_program) matches Some(v) ==> find_first(db.terminals, env::program_matches(v)) is None)
            && find_first(db.terminals, env::has_marker(present)) is Some
            ==> env_match(db, term_program, present, term) matches Some((_, EvidenceModel::EnvMarker(_))),
{
}

/// Where no marker variable is set, the environment speaks through `TERM_PROGRAM` and
/// `TERM` alone, in that order, and nothing is ever put down to a marker.
pub proof fn without_markers_the_environment_is_program_then_term(
    db: DatabaseModel,
    term_program: Option<Seq<char>>,
    term: Option<Seq<char>>,
)
    ensures
        env_match(db, term_program, Seq::empty(), term) == match env::set_value(term_program) {
            Some(v) => match find_first(db.terminals, env::program_matches(v)) {
                Some(i) => Some((i, EvidenceModel::TermProgram)),
                None => match env::set_value(term) {
                    Some(w) => match find_first(db.terminals, env::term_matches(w)) {
                        Some(i) => Some((i, EvidenceModel::Term)),
                        None => None,
                    },
                    None => None,
                },
            },
            None => match env::set_value(term) {
                Some(w) => match find_first(db.terminals, env::term_matches(w)) {
                    Some(i) => Some((i, EvidenceModel::Term)),
                    None => None,
                },
                None => None,
            },
        },
{
    let none = Seq::<Seq<char>>::empty();
    assert forall|j: int| 0 <= j < db.terminals.len() implies !env::has_marker(none)(
        #[trigger] db.terminals[j],
    ) by {
        let t = db.terminals[j];
        assert forall|k: int| 0 <= k < t.env.len() implies !env::marker_present(none)(
            #[trigger] t.env[k],
        ) by {}
        lemma_find_first(t.env, env::marker_present(none), t.env.len() as int);
    }
    lemma_find_first(db.terminals, env::has_marker(none), db.terminals.len() as int);
}

/// Deciding from the signals never concludes that there is no terminal: that is learnt
/// only from failing to open one.
pub proof fn detection_never_concludes_no_terminal(db: DatabaseModel, s: SignalsModel)
    ensures
        !(resolution_of(db, s) is NoTty),
{
}

/// A terminal that gave no name is exactly what the environment names, with no version,
/// or unknown where the environment names nothing.
pub proof fn a_silent_terminal_is_what_the_environment_names(db: DatabaseModel, s: SignalsModel)
    requires
        s.xtversion_name is None,
    ensures
        resolution_of(db, s) == match env_match(db, s.term_program, s.markers, s.term) {
            Some((i, e)) => ResolutionModel::Known {
                terminal: db.terminals[i],
                evidence: e,
                version: None,
            },
            None => ResolutionModel::Unknown,
        },
{
}

/// `TERM` alone identifies a terminal that gave no name: where neither `TERM_PROGRAM` nor
/// a marker variable names any terminal in the table, the first terminal that lists the
/// `TERM` value is the one, recognised from `TERM`.
pub proof fn term_alone_identifies_a_silent_terminal(db: DatabaseModel, s: SignalsModel, k: int)
    requires
        s.xtversion_name is None,
        match s.term_program {
            Some(p) => p.len() > 0 ==> forall|j: int|
                0 <= j < db.terminals.len() ==> !env::any_ignore_case(
                    #[trigger] db.terminals[j].term_program,
                    p,
                ),
            None => true,
        },
        forall|j: int, m: int|
            0 <= j < db.terminals.len() && 0 <= m < db.terminals[j].env.len()
                ==> !env::any_ignore_case(s.markers, #[trigger] db.terminals[j].env[m]),
        0 <= k < db.terminals.len(),
        match s.term {
            Some(t) => t.len() > 0 && env::any_ignore_case(db.terminals[k].term, t) && forall|j: int|
                0 <= j < k ==> !env::any_ignore_case(#[trigger] db.terminals[j].term, t),
            None => false,
        },
    ensures
        resolution_of(db, s) == (ResolutionModel::Known {
            terminal: db.terminals[k],
            evidence: EvidenceModel::Term,
            version: None,
        }),
{
    if let Some(p) = env::set_value(s.term_program) {
        assert forall|j: int| 0 <= j < db.terminals.len() implies !env::program_matches(p)(
            #[trigger] db.terminals[j],
        ) by {
            assert(!env::any_ignore_case(db.terminals[j].term_program, p));
        }
        lemma_find_first(db.terminals, env::program_matches(p), db.terminals.len() as int);
    }
    assert forall|j: int| 0 <= j < db.terminals.len() implies !env::has_marker(s.markers)(
        #[trigger] db.terminals[j],
    ) by {
        let t = db.terminals[j];
        assert forall|m: int| 0 <= m < t.env.len() implies !env::marker_present(s.markers)(
            #[trigger] t.env[m],
        ) by {
            assert(!env::any_ignore_case(s.markers, db.terminals[j].env[m]));
        }
        lemma_find_first(t.env, env::marker_present(s.markers), t.env.len() as int);
    }
    lemma_find_first(db.terminals, env::has_marker(s.markers), db.terminals.len() as int);
    let t = s.term->0;
    assert forall|j: int| 0 <= j < k implies !env::term_matches(t)(#[trigger] db.terminals[j]) by {
        assert(!env::any_ignore_case(db.terminals[j].term, t));
    }
    lemma_find_first(db.terminals, env::term_matches(t), k);
}

/// A name the terminal gives for itself identifies it, whatever the environment says:
/// the first terminal in the table whose XTVERSION name is that name, ignoring ASCII
/// case, is the one, and the version it reported goes with it.
pub proof fn a_name_the_table_knows_identifies_the_terminal(
    db: DatabaseModel,
    s: SignalsModel,
    k: int,
)
    requires
        0 <= k < db.terminals.len(),
        match s.xtversion_name {
            Some(n) => db.terminals[k].xtversion.len() > 0 && crate::text::eq_ignore_ascii_case(
                db.terminals[k].xtversion,
                n,
            ) && forall|j: int|
                0 <= j < k ==> !(#[trigger] db.terminals[j].xtversion.len() > 0
                    && crate::text::eq_ignore_ascii_case(db.terminals[j].xtversion, n)),
            None => false,
        },
    ensures
        resolution_of(db, s) == (ResolutionModel::Known {
            terminal: db.terminals[k],
            evidence: named_itself(s.route),
            version: s.xtversion_version,
        }),
        s.route == Route::Direct ==> resolution_of(db, s)->evidence == EvidenceModel::XtVersion,
        s.route == Route::ThroughTmux ==> resolution_of(db, s)->evidence
            == EvidenceModel::XtVersionThroughTmux,
{
    let n = s.xtversion_name->0;
    assert forall|j: int| 0 <= j < k implies !xtversion_matches(n)(#[trigger] db.terminals[j]) by {
        assert(!(db.terminals[j].xtversion.len() > 0 && crate::text::eq_ignore_ascii_case(
            db.terminals[j].xtversion,
            n,
        )));
    }
    lemma_find_first(db.terminals, xtversion_matches(n), k);
}

/// `TERM_PROGRAM` identifies a terminal that gave no name the table knows: the first
/// terminal that lists its value, ignoring ASCII case, is the one, whatever `TERM` and the
/// marker variables say.
pub proof fn term_program_identifies_a_terminal_without_a_known_name(
    db: DatabaseModel,
    s: SignalsModel,
    k: int,
)
    requires
        0 <= k < db.terminals.len(),
        match s.xtversion_name {
            Some(n) => forall|j: int|
                0 <= j < db.terminals.len() ==> !xtversion_matches(n)(#[trigger] db.terminals[j]),
            None => true,
        },
        match s.term_program {
            Some(p) => p.len() > 0 && env::any_ignore_case(db.terminals[k].term_program, p)
                && forall|j: int|
                0 <= j < k ==> !env::any_ignore_case(#[trigger] db.terminals[j].term_program, p),
            None => false,
        },
    ensures
        resolution_of(db, s) matches ResolutionModel::Known { terminal, evidence, .. } && terminal
            == db.terminals[k] && evidence == EvidenceModel::TermProgram,
{
    if let Some(n) = s.xtversion_name {
        lemma_find_first(db.terminals, xtversion_matches(n), db.terminals.len() as int);
    }
    let p = s.term_program->0;
    assert forall|j: int| 0 <= j < k implies !env::program_matches(p)(#[trigger] db.terminals[j]) by {
        assert(!env::any_ignore_case(db.terminals[j].term_program, p));
    }
    lemma_find_first(db.terminals, env::program_matches(p), k);
}

} // verus!
