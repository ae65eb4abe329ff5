//! Raising a desktop notification through whatever dialect the terminal understands.
pub mod render;

use vstd::prelude::*;

use crate::detect::env::opt_str;
use crate::detect::query::{through_tmux, tmux_wrapped};
use crate::detect::{Resolution, ResolutionModel};
use crate::search::{find_last, lemma_find_last, lemma_find_last_found};
use crate::text::{blank, is_blank, push_str};
use crate::{database, every_dialect_has_a_capability, opt_view, table, Sequence};
use render::{bytes, rendered};
use vstd::utf8::encode_utf8;

verus! {

broadcast use vstd::string::group_string_axioms;

/// What to show, before it has been reduced to what the terminal can actually carry.
#[derive(Debug, Clone, PartialEq, Eq)]
pub struct Notification {
    pub title: Option<String>,
    pub body: String,
    /// A name for this notification. Sending under a name already on screen updates that
    /// notification instead of adding one beside it.
    pub id: Option<String>,
}

/// What a [`Notification`] says.
pub struct NotificationModel {
    pub title: Option<Seq<char>>,
    pub body: Seq<char>,
    pub id: Option<Seq<char>>,
}

impl View for Notification {
    type V = NotificationModel;

    open spec fn view(&self) -> NotificationModel {
        NotificationModel { title: opt_view(self.title), body: self.body@, id: opt_view(self.id) }
    }
}

impl Notification {
    /// A notification with a body and nothing else.
    pub fn new(body: &str) -> (r: Self)
        ensures
            r@ == (NotificationModel { title: None, body: body@, id: None }),
    {
        Notification { title: None, body: body.to_owned(), id: None }
    }

    /// A notification with a title above its body.
    pub fn titled(title: &str, body: &str) -> (r: Self)
        ensures
            r@ == (NotificationModel { title: Some(title@), body: body@, id: None }),
    {
        Notification { title: Some(title.to_owned()), body: body.to_owned(), id: None }
    }

    /// Names this notification, so that sending it again under the same name replaces
    /// what is on screen rather than stacking another notification on top.
    ///
    /// Any string will do — a path, a job name, whatever the caller already uses to mean
    /// "the same piece of work". It is encoded before it goes out.
    pub fn named(self, id: &str) -> (r: Self)
        ensures
            r@ == (NotificationModel { id: Some(id@), ..self@ }),
    {
        Notification { id: Some(id.to_owned()), ..self }
    }
}

/// What was actually put on the terminal. Reported rather than discarded because the
/// terminal never answers back: this is the only account of what happened a caller can
/// get, and `doctor` exists to show it.
#[derive(Debug, Clone, Copy, PartialEq, Eq, Structural)]
pub enum Delivery {
    Sent {
        sequence: Sequence,
        /// True when the dialect could not carry a title and it was folded into the body.
        folded_title: bool,
        /// True when the notification was named but no dialect the terminal accepts can
        /// carry a name. The notification was still shown; it simply will not replace
        /// anything, and nothing will replace it.
        dropped_id: bool,
    },
    /// The terminal understands no notification dialect, so it got the bell instead.
    Bell,
    /// No controlling terminal. Nothing was sent, and whether that is a problem is the
    /// caller's to decide.
    Nothing,
}

/// A notification reduced to what one dialect can carry.
#[derive(Debug, Clone, PartialEq, Eq)]
pub struct Plan {
    pub sequence: Sequence,
    pub title: Option<String>,
    pub body: String,
    pub id: Option<String>,
}

/// What a [`Plan`] says.
pub struct PlanModel {
    pub sequence: Sequence,
    pub title: Option<Seq<char>>,
    pub body: Seq<char>,
    pub id: Option<Seq<char>>,
}

impl View for Plan {
    type V = PlanModel;

    open spec fn view(&self) -> PlanModel {
        PlanModel {
            sequence: self.sequence,
            title: opt_view(self.title),
            body: self.body@,
            id: opt_view(self.id),
        }
    }
}

/// The guess for a terminal that names itself but is absent from the table. Every
/// OSC-capable terminal measured so far accepts OSC 9, which is why it is the guess and
/// also why it is only a guess.
pub const GUESS: [Sequence; 1] = [Sequence::Osc9];

/// Whether a dialect can carry a title when one is wanted, and a name when one is.
pub open spec fn carries(wants_title: bool, wants_id: bool) -> spec_fn(Sequence) -> bool {
    |s: Sequence|
        (!wants_title || table().capability(s).title) && (!wants_id || table().capability(s).id)
}

/// The least expressive accepted dialect that still carries everything asked for; failing
/// that, the least expressive that carries the title; failing that, the richest there is.
/// `accepts` lists the richest first.
pub open spec fn chosen(accepts: Seq<Sequence>, wants_title: bool, wants_id: bool) -> Option<
    Sequence,
> {
    match find_last(accepts, carries(wants_title, wants_id)) {
        Some(k) => Some(accepts[k]),
        None => match find_last(accepts, carries(wants_title, false)) {
            Some(k) => Some(accepts[k]),
            None => if accepts.len() > 0 {
                Some(accepts[0])
            } else {
                None
            },
        },
    }
}

/// The last accepted dialect that carries what is asked.
fn simplest(accepts: &[Sequence], wants_title: bool, wants_id: bool) -> (r: Option<usize>)
    ensures
        r matches Some(k) ==> find_last(accepts@, carries(wants_title, wants_id)) == Some(k as int)
            && k < accepts@.len(),
        r is None ==> find_last(accepts@, carries(wants_title, wants_id)) is None,
{
    proof { every_dialect_has_a_capability(); }
    let db = database();
    let ghost p = carries(wants_title, wants_id);
    let mut i = accepts.len();
    while i > 0
        invariant
            i <= accepts@.len(),
            db@ == table(),
            p == carries(wants_title, wants_id),
            forall|j: int| i <= j < accepts@.len() ==> !p(#[trigger] accepts@[j]),
            forall|s: Sequence| #[trigger] table().describes(s),
        decreases i,
    {
        let s = accepts[i - 1];
        let cap = db.capability(s);
        if (!wants_title || cap.title) && (!wants_id || cap.id) {
            proof { lemma_find_last(accepts@, p, i - 1); }
            return Some(i - 1);
        }
        i -= 1;
    }
    proof { lemma_find_last(accepts@, p, -1); }
    None
}

/// The least expressive accepted dialect that still carries everything asked for.
///
/// A dialect with fields to spare has to send them empty, and an empty field is not the
/// same as no field: Ghostty wants all three of an OSC 777 and raises nothing at all
/// when the body is left off. Asking for one field when one field is what is needed
/// avoids the question.
///
/// What the terminal cannot do is given up in order, id first. A name that goes nowhere
/// costs the notification nothing but the replacing; a title that goes nowhere would
/// cost it half its text, so the title is what the remaining choice is made on.
pub fn choose_dialect(accepts: &[Sequence], wants_title: bool, wants_id: bool) -> (r: Option<Sequence>)
    ensures
        r == chosen(accepts@, wants_title, wants_id),
{
    if let Some(k) = simplest(accepts, wants_title, wants_id) {
        return Some(accepts[k]);
    }
    if let Some(k) = simplest(accepts, wants_title, false) {
        return Some(accepts[k]);
    }
    // With nothing on offer able to carry a title either, the title is folded into the
    // body of the richest dialect there is.
    if accepts.len() > 0 {
        Some(accepts[0])
    } else {
        None
    }
}

/// A title worth sending: present and not blank.
pub open spec fn wanted_title(n: NotificationModel) -> Option<Seq<char>> {
    match n.title {
        Some(t) => if is_blank(t) { None } else { Some(t) },
        None => None,
    }
}

/// A name worth sending: present and not empty.
pub open spec fn wanted_id(n: NotificationModel) -> Option<Seq<char>> {
    match n.id {
        Some(i) => if i.len() > 0 { Some(i) } else { None },
        None => None,
    }
}

/// The notification reduced to the dialect [`chosen`] for it: the name kept only where
/// the dialect carries one, the title joined to the body as `title: body` where the
/// dialect has no field for it.
pub open spec fn planned(accepts: Seq<Sequence>, n: NotificationModel) -> Option<PlanModel> {
    let title = wanted_title(n);
    let id = wanted_id(n);
    match chosen(accepts, title is Some, id is Some) {
        Some(sequence) => {
            let cap = table().capability(sequence);
            let kept_id = if cap.id { id } else { None };
            Some(
                match title {
                    Some(t) => if !cap.title {
                        PlanModel { sequence, title: None, body: t + ": "@ + n.body, id: kept_id }
                    } else {
                        PlanModel { sequence, title: Some(t), body: n.body, id: kept_id }
                    },
                    None => PlanModel { sequence, title: None, body: n.body, id: kept_id },
                },
            )
        },
        None => None,
    }
}

/// Picks the dialect and reshapes the notification to fit it, or returns `None` when the
/// terminal accepts no dialect at all.
pub fn plan(accepts: &[Sequence], notification: &Notification) -> (r: Option<Plan>)
    ensures
        match planned(accepts@, notification@) {
            Some(p) => r matches Some(q) && q@ == p,
            None => r is None,
        },
{
    let title: Option<&str> = match &notification.title {
        Some(t) => {
            let v = crate::text::chars_of(t.as_str());
            if blank(v.as_slice()) {
                None
            } else {
                Some(t.as_str())
            }
        },
        None => None,
    };
    let id: Option<&str> = match &notification.id {
        Some(i) => if i.as_str().is_empty() {
            None
        } else {
            Some(i.as_str())
        },
        None => None,
    };
    let sequence = match choose_dialect(accepts, title.is_some(), id.is_some()) {
        Some(s) => s,
        None => return None,
    };
    proof { every_dialect_has_a_capability(); }
    let db = database();
    let cap = db.capability(sequence);
    let kept_id: Option<String> = match id {
        Some(i) => if cap.id {
            Some(i.to_owned())
        } else {
            None
        },
        None => None,
    };
    match title {
        Some(t) => if !cap.title {
            // The dialect has one field, so the title joins the body rather than
            // vanishing.
            let mut body = t.to_owned();
            push_str(&mut body, ": ");
            push_str(&mut body, notification.body.as_str());
            Some(Plan { sequence, title: None, body, id: kept_id })
        } else {
            Some(
                Plan {
                    sequence,
                    title: Some(t.to_owned()),
                    body: notification.body.clone(),
                    id: kept_id,
                },
            )
        },
        None => Some(
            Plan { sequence, title: None, body: notification.body.clone(), id: kept_id },
        ),
    }
}

/// What became of the notification, by comparing what was asked for against what the
/// chosen dialect could take. A blank title and an empty name ask for nothing, so they
/// are never reported folded or dropped.
pub open spec fn delivered(n: NotificationModel, plan: Option<PlanModel>) -> Delivery {
    match plan {
        Some(p) => Delivery::Sent {
            sequence: p.sequence,
            folded_title: wanted_title(n) is Some && p.title is None,
            dropped_id: wanted_id(n) is Some && p.id is None,
        },
        None => Delivery::Bell,
    }
}

/// What became of the notification under a plan.
pub fn delivery_of(notification: &Notification, plan: Option<&Plan>) -> (r: Delivery)
    ensures
        r == delivered(
            notification@,
            match plan {
                Some(p) => Some(p@),
                None => None,
            },
        ),
{
    // A blank title and an empty name were never asked for, so neither can be lost.
    let wants_title = match &notification.title {
        Some(t) => {
            let v = crate::text::chars_of(t.as_str());
            !blank(v.as_slice())
        },
        None => false,
    };
    let wants_id = match &notification.id {
        Some(i) => !i.as_str().is_empty(),
        None => false,
    };
    match plan {
        Some(plan) => Delivery::Sent {
            sequence: plan.sequence,
            folded_title: wants_title && plan.title.is_none(),
            dropped_id: wants_id && plan.id.is_none(),
        },
        None => Delivery::Bell,
    }
}

/// The dialects available on this terminal, or `None` when there is no terminal.
pub open spec fn accepted_by(r: ResolutionModel) -> Option<Seq<Sequence>> {
    match r {
        ResolutionModel::Known { terminal, .. } => Some(terminal.accepts),
        ResolutionModel::UnknownButModern { .. } => Some(seq![Sequence::Osc9]),
        ResolutionModel::Unknown => Some(Seq::empty()),
        ResolutionModel::NoTty => None,
    }
}

/// The dialects available on this terminal, or `None` when there is no terminal.
pub fn accepted(resolution: &Resolution) -> (r: Option<Vec<Sequence>>)
    ensures
        match accepted_by(resolution@) {
            Some(a) => r matches Some(v) && v@ == a,
            None => r is None,
        },
{
    match resolution {
        Resolution::Known { terminal, .. } => {
            let mut v: Vec<Sequence> = Vec::new();
            let mut i: usize = 0;
            while i < terminal.accepts.len()
                invariant
                    i <= terminal.accepts@.len(),
                    v@ == terminal.accepts@.take(i as int),
                decreases terminal.accepts@.len() - i,
            {
                v.push(terminal.accepts[i]);
                i += 1;
                assert(v@ =~= terminal.accepts@.take(i as int));
            }
            assert(terminal.accepts@.take(i as int) =~= terminal.accepts@);
            Some(v)
        },
        Resolution::UnknownButModern { .. } => {
            let v = vec![Sequence::Osc9];
            assert(v@ =~= seq![Sequence::Osc9]);
            Some(v)
        },
        Resolution::Unknown => Some(Vec::new()),
        Resolution::NoTty => None,
    }
}

/// What [`preview`] reports, and what [`to`] reports of what it sends.
pub open spec fn previewed(r: ResolutionModel, n: NotificationModel) -> Delivery {
    match accepted_by(r) {
        Some(a) => delivered(n, planned(a, n)),
        None => Delivery::Nothing,
    }
}

/// What [`to`] would do with this notification, without doing it.
///
/// Answers the question `doctor` asks four times over — what happens to a notification
/// with a title, with a name, with both, with neither — without putting four
/// notifications on the screen to find out.
pub fn preview(resolution: &Resolution, notification: &Notification) -> (r: Delivery)
    ensures
        r == previewed(resolution@, notification@),
{
    match accepted(resolution) {
        Some(accepts) => {
            let p = plan(accepts.as_slice(), notification);
            match &p {
                Some(q) => delivery_of(notification, Some(q)),
                None => delivery_of(notification, None),
            }
        },
        None => Delivery::Nothing,
    }
}

/// The bytes that go to the terminal for a notification, before any tmux wrapping: the
/// planned dialect's rendering, or BEL when there is no plan.
pub open spec fn plain_wire(plan: Option<PlanModel>, unnamed: Seq<char>) -> Seq<u8> {
    match plan {
        Some(p) => encode_utf8(rendered(p.sequence, p.title, p.body, p.id, unnamed)),
        None => seq![0x07u8],
    }
}

/// The bytes [`to`] hands over for the terminal.
pub open spec fn wire(
    r: ResolutionModel,
    n: NotificationModel,
    inside_tmux: bool,
    unnamed: Seq<char>,
) -> Seq<u8> {
    let plain = plain_wire(planned(accepted_by(r)->0, n), unnamed);
    if inside_tmux {
        tmux_wrapped(plain)
    } else {
        plain
    }
}

/// What to put on a terminal already identified to show a notification, and the account
/// of it; `None` when there is no terminal and nothing is to be sent.
///
/// Under tmux the bytes are wrapped so that tmux hands them on to the terminal beyond.
/// `unnamed` is the id an OSC 99 notification goes out under when it has no name of its
/// own; it has to differ from every earlier one.
///
/// What this reports is always what [`preview`] says of the same notification.
pub fn to(
    resolution: &Resolution,
    notification: &Notification,
    inside_tmux: bool,
    unnamed: &str,
) -> (r: Option<(Vec<u8>, Delivery)>)
    ensures
        r is None <==> previewed(resolution@, notification@) == Delivery::Nothing,
        r is None <==> accepted_by(resolution@) is None,
        r matches Some((b, d)) ==> d == previewed(resolution@, notification@) && b@ == wire(
            resolution@,
            notification@,
            inside_tmux,
            unnamed@,
        ),
{
    let accepts = match accepted(resolution) {
        Some(a) => a,
        None => return None,
    };
    let p = plan(accepts.as_slice(), notification);
    let plain: Vec<u8> = match &p {
        Some(q) => bytes(
            q.sequence,
            match &q.title {
                Some(t) => Some(t.as_str()),
                None => None,
            },
            q.body.as_str(),
            match &q.id {
                Some(i) => Some(i.as_str()),
                None => None,
            },
            unnamed,
        ),
        None => vec![0x07],
    };
    proof {
        if p is None {
            assert(plain@ =~= seq![0x07u8]);
        }
    }
    let delivery = match &p {
        Some(q) => delivery_of(notification, Some(q)),
        None => delivery_of(notification, None),
    };
    let out = if inside_tmux {
        through_tmux(plain.as_slice())
    } else {
        plain
    };
    Some((out, delivery))
}

/// A notification gets a plan exactly when the terminal accepts some dialect, and the
/// plan's dialect is always one the terminal accepts.
pub proof fn a_plan_exists_exactly_when_a_dialect_is_accepted(
    accepts: Seq<Sequence>,
    n: NotificationModel,
)
    ensures
        planned(accepts, n) is Some <==> accepts.len() > 0,
        planned(accepts, n) matches Some(p) ==> accepts.contains(p.sequence),
{
    let wt = wanted_title(n) is Some;
    let wi = wanted_id(n) is Some;
    lemma_find_last_found(accepts, carries(wt, wi));
    lemma_find_last_found(accepts, carries(wt, false));
    if let Some(s) = chosen(accepts, wt, wi) {
        if let Some(k) = find_last(accepts, carries(wt, wi)) {
            assert(accepts[k] == s);
        } else if let Some(k) = find_last(accepts, carries(wt, false)) {
            assert(accepts[k] == s);
        } else {
            assert(accepts[0] == s);
        }
    }
}

/// Of the accepted dialects, the one chosen carries everything asked for whenever one
/// does, and it is the last such in the terminal's list: the least expressive.
pub proof fn the_simplest_sufficient_dialect_is_chosen(
    accepts: Seq<Sequence>,
    wants_title: bool,
    wants_id: bool,
    k: int,
)
    requires
        0 <= k < accepts.len(),
        carries(wants_title, wants_id)(accepts[k]),
    ensures
        chosen(accepts, wants_title, wants_id) matches Some(s) && carries(wants_title, wants_id)(s),
        chosen(accepts, wants_title, wants_id) matches Some(s) && exists|j: int|
            k <= j < accepts.len() && accepts[j] == s && forall|m: int|
                j < m < accepts.len() ==> !carries(wants_title, wants_id)(#[trigger] accepts[m]),
{
    lemma_find_last_found(accepts, carries(wants_title, wants_id));
    let j = find_last(accepts, carries(wants_title, wants_id))->0;
    assert(accepts[j] == chosen(accepts, wants_title, wants_id)->0);
}

/// What the terminal cannot do is given up name first: where some accepted dialect can
/// carry the title, the chosen one carries it, whether or not the name survives.
pub proof fn a_name_is_given_up_before_a_title_is(accepts: Seq<Sequence>, wants_id: bool, k: int)
    requires
        0 <= k < accepts.len(),
        table().capability(accepts[k]).title,
    ensures
        chosen(accepts, true, wants_id) matches Some(s) && table().capability(s).title,
{
    lemma_find_last_found(accepts, carries(true, wants_id));
    lemma_find_last_found(accepts, carries(true, false));
    assert(carries(true, false)(accepts[k]));
    if let Some(j) = find_last(accepts, carries(true, wants_id)) {
        assert(carries(true, wants_id)(accepts[j]));
    } else {
        let j = find_last(accepts, carries(true, false))->0;
        assert(carries(true, false)(accepts[j]));
    }
}

/// A title that was asked for is never lost: the plan either carries it as the title or
/// puts it at the front of the body as `title: body`.
pub proof fn a_title_is_never_lost(accepts: Seq<Sequence>, n: NotificationModel)
    ensures
        planned(accepts, n) matches Some(p) ==> match wanted_title(n) {
            Some(t) => p.title == Some(t) || (p.title is None && p.body == t + ": "@ + n.body),
            None => p.title is None && p.body == n.body,
        },
{
}

/// An empty name is no name and a blank title is no title: neither costs the
/// notification a dialect it would otherwise have used.
pub proof fn empty_fields_count_for_nothing(accepts: Seq<Sequence>, n: NotificationModel)
    requires
        n.id matches Some(i) ==> i.len() == 0,
        n.title matches Some(t) ==> is_blank(t),
    ensures
        planned(accepts, n) == planned(accepts, NotificationModel { title: None, body: n.body, id: None }),
{
}

/// A named notification that the chosen dialect can carry a name in keeps its name.
pub proof fn a_carried_name_is_kept(accepts: Seq<Sequence>, n: NotificationModel)
    ensures
        planned(accepts, n) matches Some(p) ==> (p.id == wanted_id(n) || p.id is None) && (
        table().capability(p.sequence).id ==> p.id == wanted_id(n)),
{
}

/// A terminal that named itself but is not in the table is sent OSC 9, the one dialect
/// every measured terminal accepted; one that would not identify itself gets the bell;
/// with no terminal at all nothing is sent.
pub proof fn an_unlisted_terminal_gets_the_guess_and_a_silent_one_the_bell(
    name: Seq<char>,
    version: Option<Seq<char>>,
    n: NotificationModel,
)
    ensures
        previewed(ResolutionModel::UnknownButModern { name, version }, n) matches Delivery::Sent {
            sequence: Sequence::Osc9,
            ..
        },
        previewed(ResolutionModel::Unknown, n) == Delivery::Bell,
        previewed(ResolutionModel::NoTty, n) == Delivery::Nothing,
{
    let guess = seq![Sequence::Osc9];
    a_plan_exists_exactly_when_a_dialect_is_accepted(guess, n);
    a_plan_exists_exactly_when_a_dialect_is_accepted(Seq::empty(), n);
}

/// A title or a name is reported lost only when one was asked for: a blank title is
/// never reported folded, and an empty name never reported dropped.
pub proof fn only_what_was_asked_for_is_reported_lost(r: ResolutionModel, n: NotificationModel)
    ensures
        previewed(r, n) matches Delivery::Sent { folded_title, dropped_id, .. } ==> (folded_title
            ==> wanted_title(n) is Some) && (dropped_id ==> wanted_id(n) is Some),
        (n.title matches Some(t) && is_blank(t)) ==> !(previewed(r, n) matches Delivery::Sent {
            folded_title: true,
            ..
        }),
        (n.id matches Some(i) && i.len() == 0) ==> !(previewed(r, n) matches Delivery::Sent {
            dropped_id: true,
            ..
        }),
{
}

/// Where some accepted dialect carries everything asked for, the one chosen is the last
/// such in `accepts`, that is the least expressive: no dialect with fields to spare.
pub proof fn the_simplest_dialect_that_carries_everything_is_chosen(
    accepts: Seq<Sequence>,
    wants_title: bool,
    wants_id: bool,
    k: int,
)
    requires
        0 <= k < accepts.len(),
        (!wants_title || table().capability(accepts[k]).title) && (!wants_id || table().capability(
            accepts[k],
        ).id),
        forall|m: int|
            k < m < accepts.len() ==> !((!wants_title || table().capability(
                #[trigger] accepts[m],
            ).title) && (!wants_id || table().capability(accepts[m]).id)),
    ensures
        chosen(accepts, wants_title, wants_id) == Some(accepts[k]),
{
    lemma_find_last(accepts, carries(wants_title, wants_id), k);
}

/// Where no accepted dialect carries the name along with the rest, the name is given up
/// and the choice made on the title alone: the last accepted dialect that carries the
/// title where one is wanted, the last accepted dialect where none is.
pub proof fn a_name_that_cannot_go_is_given_up_for_the_simplest_dialect(
    accepts: Seq<Sequence>,
    wants_title: bool,
    wants_id: bool,
    k: int,
)
    requires
        0 <= k < accepts.len(),
        forall|j: int|
            0 <= j < accepts.len() ==> !((!wants_title || table().capability(
                #[trigger] accepts[j],
            ).title) && (!wants_id || table().capability(accepts[j]).id)),
        !wants_title || table().capability(accepts[k]).title,
        forall|m: int|
            k < m < accepts.len() ==> !(!wants_title || table().capability(
                #[trigger] accepts[m],
            ).title),
    ensures
        chosen(accepts, wants_title, wants_id) == Some(accepts[k]),
{
    lemma_find_last(accepts, carries(wants_title, wants_id), -1);
    lemma_find_last(accepts, carries(wants_title, false), k);
}

/// Where no accepted dialect can carry the title, the richest accepted dialect is used
/// and the title folded into its body; where none is accepted, nothing is chosen.
pub proof fn with_no_room_for_the_title_the_richest_dialect_is_used(
    accepts: Seq<Sequence>,
    wants_id: bool,
)
    requires
        forall|j: int|
            0 <= j < accepts.len() ==> !table().capability(#[trigger] accepts[j]).title,
    ensures
        chosen(accepts, true, wants_id) == (if accepts.len() > 0 {
            Some(accepts[0])
        } else {
            None
        }),
{
    lemma_find_last(accepts, carries(true, wants_id), -1);
    lemma_find_last(accepts, carries(true, false), -1);
}

/// What is reported lost is exactly what was asked for and the dialect sent cannot
/// carry: a title that is not blank, where the dialect has no title field; a name that is
/// not empty, where the dialect has no id field.
pub proof fn what_is_reported_lost_is_what_the_dialect_cannot_carry(
    r: ResolutionModel,
    n: NotificationModel,
)
    ensures
        previewed(r, n) matches Delivery::Sent { sequence, folded_title, dropped_id } ==> (
        folded_title == (n.title matches Some(t) && !is_blank(t) && !table().capability(
            sequence,
        ).title)) && (dropped_id == (n.id matches Some(i) && i.len() > 0 && !table().capability(
            sequence,
        ).id)),
{
}

} // verus!
