//! Explaining what peal does on this terminal, and what to look at when it appears to
//! do nothing.
//!
//! The report exists because the escape sequence is fire-and-forget. Nothing comes back
//! to say a notification was refused, so the difference between "peal sent the wrong
//! bytes" and "the operating system dropped them" cannot be observed from inside the
//! program. All peal can do is say exactly what it sent and what it concluded, and let
//! the reader compare that against what they saw.
use vstd::prelude::*;

use crate::detect::{Evidence, EvidenceModel, Resolution, ResolutionModel};
use crate::notify::{preview, previewed, Delivery, Notification, NotificationModel};
use crate::text::{push_char, push_str, same_text};
use crate::{database, every_dialect_has_a_capability, sequence_name, table, Sequence, TerminalModel};

verus! {

broadcast use vstd::string::group_string_axioms;

pub const TERMINAL_HEADING: &'static str = "Terminal\n";

pub const MEASURED_ON: &'static str = "  Measured on version ";

pub const MEASURED_ON_END: &'static str = ", so what follows was observed rather than assumed.\n";

pub const RUNNING: &'static str = "  You are running ";

pub const RUNNING_END: &'static str = ". Anything below may have changed since.\n";

pub const MEASURED_DIRECTLY: &'static str =
    "  Measured directly, so what follows was observed rather than assumed.\n";

pub const FROM_DOCUMENTATION: &'static str =
    "  Taken from documentation rather than measured. It may be wrong.\n";

pub const NO_ENTRY: &'static str = " — named itself, but peal has no entry for it.\n";

pub const EXTRAPOLATION: &'static str =
    "  Answering XTVERSION at all suggests it will take an OSC 9, since every\n  terminal measured so far did. That is an extrapolation from four terminals\n  on one platform, not a fact about this one.\n";

pub const UNIDENTIFIED: &'static str =
    "  Unidentified. It answered no query and set no variable peal knows.\n  Only the bell is safe here: an escape sequence a terminal does not\n  understand may be printed to the screen rather than ignored.\n";

pub const NO_TERMINAL: &'static str =
    "  None. This process has no controlling terminal.\n  Output is going to a pipe, a file, or a job with no terminal at all, so\n  there is nothing to notify. peal sends nothing and reports it.\n";

pub const UNDER_TMUX: &'static str =
    "\n  Running under tmux. tmux drops the escape sequences peal sends unless they\n  are wrapped for it, so peal wraps them, and the wrapper only gets through with\n  `tmux set -g allow-passthrough on`. Without that setting the bell is all that\n  reaches the terminal beyond.\n";

pub const SENDS_HEADING: &'static str = "\nWhat peal sends here\n";

pub const BELL_ROW: &'static str = "the bell — this terminal raises no notifications\n";

pub const NOTHING_ROW: &'static str = "nothing, there being no terminal\n";

pub const IN_FULL: &'static str = "\n  In full:\n";

pub const TEST_HEADING: &'static str = "\nTest notification\n";

pub const SENT_AS: &'static str = "  Sent as ";

pub const DID_IT_APPEAR: &'static str = ". Did it appear?\n\n";

pub const NOT_PERMITTED: &'static str =
    "  If it did not, the terminal is most likely not permitted to post\n  notifications. ";

pub const MACOS_SETTINGS: &'static str =
    "Open System Settings > Notifications and find the\n  terminal application; newly installed terminals default to off.\n";

pub const OTHER_SETTINGS: &'static str =
    "Check the notification settings of the desktop\n  environment for the terminal application.\n";

pub const FIRE_AND_FORGET: &'static str =
    "\n  This has to ask rather than tell. The escape sequence is fire-and-forget:\n  a terminal that dropped the notification reports exactly what one that\n  raised it reports, which is nothing.\n";

pub const RANG_BELL: &'static str = "  Rang the bell, this terminal having no notification dialect.\n";

pub const NOTHING_SENT: &'static str = "  Nothing was sent, there being no terminal.\n";

/// The title, body and name of the sample notifications.
pub const TITLE: &'static str = "peal";

pub const BODY: &'static str = "this is a test notification";

pub const NAME: &'static str = "doctor";

/// `n` spaces.
pub open spec fn spaces(n: nat) -> Seq<char> {
    Seq::new(n, |i: int| ' ')
}

/// `s` padded with spaces to at least `width` characters, as `{:<width}` formats it.
pub open spec fn padded(s: Seq<char>, width: nat) -> Seq<char> {
    if s.len() >= width {
        s
    } else {
        s + spaces((width - s.len()) as nat)
    }
}

/// How the terminal was identified, in words.
pub open spec fn evidence_text(e: EvidenceModel) -> Seq<char> {
    match e {
        EvidenceModel::XtVersion => "it named itself when asked"@,
        EvidenceModel::XtVersionThroughTmux => "it named itself when asked through tmux"@,
        EvidenceModel::TermProgram => "recognised from TERM_PROGRAM, since it answers no query"@,
        EvidenceModel::EnvMarker(m) => "recognised from "@ + m
            + ", a variable it sets, since it answers no query"@,
        EvidenceModel::Term => "recognised from TERM, since it answers no query and sets no TERM_PROGRAM"@,
    }
}

/// What the report says of how far the table entry can be trusted.
pub open spec fn provenance_text(t: TerminalModel, running: Option<Seq<char>>) -> Seq<char> {
    match t.tested_version {
        Some(tested) => if t.verified {
            MEASURED_ON@ + tested + MEASURED_ON_END@ + match running {
                Some(v) => if v != tested {
                    RUNNING@ + v + RUNNING_END@
                } else {
                    Seq::empty()
                },
                None => Seq::empty(),
            }
        } else {
            FROM_DOCUMENTATION@
        },
        None => if t.verified {
            MEASURED_DIRECTLY@
        } else {
            FROM_DOCUMENTATION@
        },
    }
}

/// The first section: which terminal this is and how sure peal is of it.
pub open spec fn terminal_text(r: ResolutionModel, inside_tmux: bool) -> Seq<char> {
    TERMINAL_HEADING@ + match r {
        ResolutionModel::Known { terminal, evidence, version } => "  "@ + terminal.id + " — "@
            + evidence_text(evidence) + "\n"@ + provenance_text(terminal, version),
        ResolutionModel::UnknownButModern { name, version } => "  "@ + name + match version {
            Some(v) => " "@ + v,
            None => Seq::empty(),
        } + NO_ENTRY@ + EXTRAPOLATION@,
        ResolutionModel::Unknown => UNIDENTIFIED@,
        ResolutionModel::NoTty => NO_TERMINAL@,
    } + if inside_tmux {
        UNDER_TMUX@
    } else {
        Seq::empty()
    }
}

/// What the chosen dialect could not take, phrased short enough to sit beside its name.
pub open spec fn losses_text(folded_title: bool, dropped_id: bool) -> Seq<char> {
    if folded_title && dropped_id {
        "the title joins the body"@ + ", "@ + "the name is dropped"@
    } else if folded_title {
        "the title joins the body"@
    } else if dropped_id {
        "the name is dropped"@
    } else {
        Seq::empty()
    }
}

/// One row of the dialect table.
pub open spec fn row_text(label: Seq<char>, d: Delivery) -> Seq<char> {
    "  "@ + padded(label, 22) + match d {
        Delivery::Sent { sequence, folded_title, dropped_id } => if !folded_title && !dropped_id {
            sequence_name(sequence) + "\n"@
        } else {
            padded(sequence_name(sequence), 10) + losses_text(folded_title, dropped_id) + "\n"@
        },
        Delivery::Bell => BELL_ROW@,
        Delivery::Nothing => NOTHING_ROW@,
    }
}

/// The labels of the four sample notifications, as the reader would describe their own
/// call.
pub open spec fn request_labels() -> Seq<Seq<char>> {
    seq!["a plain notification"@, "with a title"@, "with a name"@, "with both"@]
}

/// The four sample notifications.
pub open spec fn request_models() -> Seq<NotificationModel> {
    seq![
        NotificationModel { title: None, body: BODY@, id: None },
        NotificationModel { title: Some(TITLE@), body: BODY@, id: None },
        NotificationModel { title: None, body: BODY@, id: Some(NAME@) },
        NotificationModel { title: Some(TITLE@), body: BODY@, id: Some(NAME@) },
    ]
}

/// What becomes of each sample notification on this terminal.
pub open spec fn previews_of(r: ResolutionModel) -> Seq<Delivery> {
    request_models().map_values(|n: NotificationModel| previewed(r, n))
}

/// The dialects the deliveries use, each once, in order of first use.
pub open spec fn used_dialects(ds: Seq<Delivery>) -> Seq<Sequence>
    decreases ds.len(),
{
    if ds.len() == 0 {
        Seq::empty()
    } else {
        let u = used_dialects(ds.drop_last());
        match ds.last() {
            Delivery::Sent { sequence, .. } => if u.contains(sequence) {
                u
            } else {
                u.push(sequence)
            },
            _ => u,
        }
    }
}

/// One line of the wire-format list.
pub open spec fn form_line(s: Sequence) -> Seq<char> {
    "    "@ + padded(sequence_name(s), 10) + table().capability(s).form + "\n"@
}

/// The wire-format lines of the given dialects.
pub open spec fn form_lines(used: Seq<Sequence>) -> Seq<char>
    decreases used.len(),
{
    if used.len() == 0 {
        Seq::empty()
    } else {
        form_lines(used.drop_last()) + form_line(used.last())
    }
}

/// The wire format of each dialect the terminal actually uses, if it uses any.
pub open spec fn forms_text(ds: Seq<Delivery>) -> Seq<char> {
    let used = used_dialects(ds);
    if used.len() == 0 {
        Seq::empty()
    } else {
        IN_FULL@ + form_lines(used)
    }
}

/// The rows of the dialect table: one per sample, or a single row when all four fare
/// alike.
pub open spec fn rows_text(ds: Seq<Delivery>) -> Seq<char> {
    if ds[1] == ds[0] && ds[2] == ds[0] && ds[3] == ds[0] {
        row_text("any notification"@, ds[0])
    } else {
        row_text(request_labels()[0], ds[0]) + row_text(request_labels()[1], ds[1]) + row_text(
            request_labels()[2],
            ds[2],
        ) + row_text(request_labels()[3], ds[3])
    }
}

/// The second section: what peal sends for each shape of notification.
pub open spec fn dialects_text(r: ResolutionModel) -> Seq<char> {
    SENDS_HEADING@ + rows_text(previews_of(r)) + forms_text(previews_of(r))
}

/// The third section: what was sent as a test, and what to check if it did not appear.
pub open spec fn test_text(d: Delivery, os: Seq<char>) -> Seq<char> {
    TEST_HEADING@ + match d {
        Delivery::Sent { sequence, .. } => SENT_AS@ + sequence_name(sequence) + DID_IT_APPEAR@
            + NOT_PERMITTED@ + if os == "macos"@ {
            MACOS_SETTINGS@
        } else {
            OTHER_SETTINGS@
        } + FIRE_AND_FORGET@,
        Delivery::Bell => RANG_BELL@,
        Delivery::Nothing => NOTHING_SENT@,
    }
}

/// The whole report.
pub open spec fn report_text(
    r: ResolutionModel,
    inside_tmux: bool,
    test: Option<Delivery>,
    os: Seq<char>,
) -> Seq<char> {
    terminal_text(r, inside_tmux) + if r is NoTty {
        Seq::empty()
    } else {
        dialects_text(r) + match test {
            Some(d) => test_text(d, os),
            None => Seq::empty(),
        }
    }
}

/// Appends `s` padded with spaces to `width` characters.
fn push_padded(out: &mut String, s: &str, width: usize)
    ensures
        final(out)@ == old(out)@ + padded(s@, width as nat),
{
    let ghost start = out@;
    let n = s.unicode_len();
    push_str(out, s);
    let mut k = n;
    while k < width
        invariant
            n == s@.len(),
            n <= k,
            k == n || k <= width,
            out@ == start + s@ + spaces((k - n) as nat),
        decreases width - k,
    {
        push_char(out, ' ');
        k += 1;
        assert(out@ =~= start + s@ + spaces((k - n) as nat));
    }
    assert(out@ =~= start + padded(s@, width as nat));
}

fn describe(out: &mut String, evidence: &Evidence)
    ensures
        final(out)@ == old(out)@ + evidence_text(evidence@),
{
    match evidence {
        Evidence::XtVersion => push_str(out, "it named itself when asked"),
        Evidence::XtVersionThroughTmux => push_str(out, "it named itself when asked through tmux"),
        Evidence::TermProgram => push_str(out, "recognised from TERM_PROGRAM, since it answers no query"),
        Evidence::EnvMarker(m) => {
            push_str(out, "recognised from ");
            push_str(out, m.as_str());
            push_str(out, ", a variable it sets, since it answers no query");
        },
        Evidence::Term => push_str(
            out,
            "recognised from TERM, since it answers no query and sets no TERM_PROGRAM",
        ),
    }
    assert(final(out)@ =~= old(out)@ + evidence_text(evidence@));
}

fn provenance(out: &mut String, terminal: &crate::Terminal, version: &Option<String>)
    ensures
        final(out)@ == old(out)@ + provenance_text(terminal@, crate::opt_view(*version)),
{
    let ghost start = out@;
    match &terminal.tested_version {
        Some(tested) => if terminal.verified {
            push_str(out, MEASURED_ON);
            push_str(out, tested.as_str());
            push_str(out, MEASURED_ON_END);
            // A terminal can gain or lose a dialect between releases, so a reader on a
            // different one should know the table may be behind.
            match version {
                Some(running) => if !same_text(running.as_str(), tested.as_str()) {
                    push_str(out, RUNNING);
                    push_str(out, running.as_str());
                    push_str(out, RUNNING_END);
                },
                None => {},
            }
        } else {
            push_str(out, FROM_DOCUMENTATION);
        },
        None => if terminal.verified {
            push_str(out, MEASURED_DIRECTLY);
        } else {
            push_str(out, FROM_DOCUMENTATION);
        },
    }
    assert(out@ =~= start + provenance_text(terminal@, crate::opt_view(*version)));
}

fn identity(out: &mut String, resolution: &Resolution)
    ensures
        final(out)@ == old(out)@ + match resolution@ {
            ResolutionModel::Known { terminal, evidence, version } => "  "@ + terminal.id + " — "@
                + evidence_text(evidence) + "\n"@ + provenance_text(terminal, version),
            ResolutionModel::UnknownButModern { name, version } => "  "@ + name + match version {
                Some(v) => " "@ + v,
                None => Seq::empty(),
            } + NO_ENTRY@ + EXTRAPOLATION@,
            ResolutionModel::Unknown => UNIDENTIFIED@,
            ResolutionModel::NoTty => NO_TERMINAL@,
        },
{
    let ghost start = out@;
    match resolution {
        Resolution::Known { terminal, evidence, version } => {
            push_str(out, "  ");
            push_str(out, terminal.id.as_str());
            push_str(out, " — ");
            describe(out, evidence);
            push_str(out, "\n");
            provenance(out, terminal, version);
            assert(out@ =~= start + "  "@ + terminal.id@ + " — "@ + evidence_text(evidence@) + "\n"@
                + provenance_text(terminal@, crate::opt_view(*version)));
        },
        Resolution::UnknownButModern { name, version } => {
            push_str(out, "  ");
            push_str(out, name.as_str());
            match version {
                Some(v) => {
                    push_str(out, " ");
                    push_str(out, v.as_str());
                },
                None => {},
            }
            push_str(out, NO_ENTRY);
            push_str(out, EXTRAPOLATION);
            assert(out@ =~= start + "  "@ + name@ + match crate::opt_view(*version) {
                Some(v) => " "@ + v,
                None => Seq::empty(),
            } + NO_ENTRY@ + EXTRAPOLATION@);
        },
        Resolution::Unknown => push_str(out, UNIDENTIFIED),
        Resolution::NoTty => push_str(out, NO_TERMINAL),
    }
}

fn terminal_section(out: &mut String, resolution: &Resolution, inside_tmux: bool)
    ensures
        final(out)@ == old(out)@ + terminal_text(resolution@, inside_tmux),
{
    let ghost start = out@;
    push_str(out, TERMINAL_HEADING);
    identity(out, resolution);
    if inside_tmux {
        push_str(out, UNDER_TMUX);
    }
    assert(out@ =~= start + terminal_text(resolution@, inside_tmux));
}

/// What the chosen dialect could not take, phrased short enough to sit beside its name.
pub fn losses(folded_title: bool, dropped_id: bool) -> (r: Vec<&'static str>)
    ensures
        r@.len() == (if folded_title { 1int } else { 0 }) + (if dropped_id { 1int } else { 0 }),
        folded_title ==> r@[0]@ == "the title joins the body"@,
        dropped_id ==> r@[r@.len() - 1]@ == "the name is dropped"@,
{
    let mut notes: Vec<&'static str> = Vec::new();
    if folded_title {
        notes.push("the title joins the body");
    }
    if dropped_id {
        notes.push("the name is dropped");
    }
    notes
}

fn describe_delivery(out: &mut String, label: &str, delivery: Delivery)
    ensures
        final(out)@ == old(out)@ + row_text(label@, delivery),
{
    let ghost start = out@;
    push_str(out, "  ");
    push_padded(out, label, 22);
    match delivery {
        Delivery::Sent { sequence, folded_title, dropped_id } => {
            if !folded_title && !dropped_id {
                push_str(out, sequence.name());
                push_str(out, "\n");
            } else {
                // Kept on the one line: the same loss recurs across several rows, and
                // spelling it out under each would bury the dialects it happens to.
                push_padded(out, sequence.name(), 10);
                let notes = losses(folded_title, dropped_id);
                let ghost before = out@;
                if notes.len() > 0 {
                    push_str(out, notes[0]);
                }
                if notes.len() > 1 {
                    push_str(out, ", ");
                    push_str(out, notes[1]);
                }
                assert(out@ =~= before + losses_text(folded_title, dropped_id));
                push_str(out, "\n");
            }
        },
        Delivery::Bell => push_str(out, BELL_ROW),
        Delivery::Nothing => push_str(out, NOTHING_ROW),
    }
    assert(out@ =~= start + row_text(label@, delivery));
}

/// The four sample notifications, each with its label.
fn requests() -> (r: Vec<(&'static str, Notification)>)
    ensures
        r@.len() == 4,
        r@[0].0@ == request_labels()[0] && r@[0].1@ == request_models()[0],
        r@[1].0@ == request_labels()[1] && r@[1].1@ == request_models()[1],
        r@[2].0@ == request_labels()[2] && r@[2].1@ == request_models()[2],
        r@[3].0@ == request_labels()[3] && r@[3].1@ == request_models()[3],
{
    vec![
        ("a plain notification", Notification::new(BODY)),
        ("with a title", Notification::titled(TITLE, BODY)),
        ("with a name", Notification::new(BODY).named(NAME)),
        ("with both", Notification::titled(TITLE, BODY).named(NAME)),
    ]
}

fn forms_section(out: &mut String, previews: &Vec<Delivery>)
    ensures
        final(out)@ == old(out)@ + forms_text(previews@),
{
    // In order of first use, and each one only once. A terminal can return to a dialect
    // it has already used, so this cannot just drop neighbouring repeats.
    let mut used: Vec<Sequence> = Vec::new();
    let mut i: usize = 0;
    while i < previews.len()
        invariant
            i <= previews@.len(),
            used@ == used_dialects(previews@.take(i as int)),
        decreases previews@.len() - i,
    {
        proof {
            assert(previews@.take(i + 1).drop_last() =~= previews@.take(i as int));
        }
        match previews[i] {
            Delivery::Sent { sequence, .. } => {
                let mut seen = false;
                let mut k: usize = 0;
                while k < used.len()
                    invariant
                        k <= used@.len(),
                        seen == exists|j: int| 0 <= j < k && used@[j] == sequence,
                    decreases used@.len() - k,
                {
                    if used[k] == sequence {
                        seen = true;
                    }
                    k += 1;
                }
                if !seen {
                    used.push(sequence);
                }
                proof {
                    assert(seen == used_dialects(previews@.take(i as int)).contains(sequence)) by {
                        if seen {
                            let j = choose|j: int| 0 <= j < k && used@[j] == sequence;
                            assert(used_dialects(previews@.take(i as int))[j] == sequence);
                        }
                    }
                }
            },
            _ => {},
        }
        i += 1;
    }
    assert(previews@.take(i as int) =~= previews@);
    if used.len() == 0 {
        return;
    }
    push_str(out, IN_FULL);
    proof { every_dialect_has_a_capability(); }
    let db = database();
    let ghost before = out@;
    let mut k: usize = 0;
    while k < used.len()
        invariant
            k <= used@.len(),
            db@ == table(),
            forall|s: Sequence| #[trigger] table().describes(s),
            out@ == before + form_lines(used@.take(k as int)),
        decreases used@.len() - k,
    {
        let s = used[k];
        push_str(out, "    ");
        push_padded(out, s.name(), 10);
        push_str(out, db.capability(s).form.as_str());
        push_str(out, "\n");
        proof {
            assert(used@.take(k + 1).drop_last() =~= used@.take(k as int));
        }
        k += 1;
        assert(out@ =~= before + form_lines(used@.take(k as int)));
    }
    assert(used@.take(k as int) =~= used@);
}

fn dialects_section(out: &mut String, resolution: &Resolution)
    ensures
        final(out)@ == old(out)@ + dialects_text(resolution@),
{
    let ghost start = out@;
    push_str(out, SENDS_HEADING);
    let reqs = requests();
    let previews: Vec<Delivery> = vec![
        preview(resolution, &reqs[0].1),
        preview(resolution, &reqs[1].1),
        preview(resolution, &reqs[2].1),
        preview(resolution, &reqs[3].1),
    ];
    assert(previews@ =~= previews_of(resolution@));
    // A terminal that treats all four shapes alike — one with no dialect at all — says
    // so once. Four identical lines would read as four different answers.
    if previews[1] == previews[0] && previews[2] == previews[0] && previews[3] == previews[0] {
        describe_delivery(out, "any notification", previews[0]);
    } else {
        describe_delivery(out, reqs[0].0, previews[0]);
        describe_delivery(out, reqs[1].0, previews[1]);
        describe_delivery(out, reqs[2].0, previews[2]);
        describe_delivery(out, reqs[3].0, previews[3]);
    }
    forms_section(out, &previews);
    assert(out@ =~= start + dialects_text(resolution@));
}

fn test_section(out: &mut String, delivery: Delivery, os: &str)
    ensures
        final(out)@ == old(out)@ + test_text(delivery, os@),
{
    let ghost start = out@;
    push_str(out, TEST_HEADING);
    match delivery {
        Delivery::Sent { sequence, .. } => {
            push_str(out, SENT_AS);
            push_str(out, sequence.name());
            push_str(out, DID_IT_APPEAR);
            push_str(out, NOT_PERMITTED);
            if same_text(os, "macos") {
                push_str(out, MACOS_SETTINGS);
            } else {
                push_str(out, OTHER_SETTINGS);
            }
            push_str(out, FIRE_AND_FORGET);
        },
        Delivery::Bell => push_str(out, RANG_BELL),
        Delivery::Nothing => push_str(out, NOTHING_SENT),
    }
    assert(out@ =~= start + test_text(delivery, os@));
}

/// The report, as text ready to print.
///
/// `test` is what became of the notification sent to check the report against, where
/// one was sent; `os` names the operating system, which decides where the reader is
/// told to look for the notification permission.
pub fn report(resolution: &Resolution, inside_tmux: bool, test: Option<&Delivery>, os: &str) -> (r:
    String)
    ensures
        r@ == report_text(
            resolution@,
            inside_tmux,
            match test {
                Some(d) => Some(*d),
                None => None,
            },
            os@,
        ),
{
    let mut out = String::new();
    terminal_section(&mut out, resolution, inside_tmux);
    // With no terminal there is nothing further to say that the section above has not
    // said, and four identical lines saying so would only bury it.
    let no_tty = match resolution {
        Resolution::NoTty => true,
        _ => false,
    };
    if !no_tty {
        dialects_section(&mut out, resolution);
        if let Some(delivery) = test {
            test_section(&mut out, *delivery, os);
        }
    }
    assert(out@ =~= report_text(
        resolution@,
        inside_tmux,
        match test {
            Some(d) => Some(*d),
            None => None,
        },
        os@,
    ));
    out
}

/// Each dialect is spelled out once in the wire-format list, however many of the sample
/// notifications use it and in whatever order.
pub proof fn each_dialect_is_spelled_out_once(ds: Seq<Delivery>)
    ensures
        forall|i: int, j: int|
            0 <= i < j < used_dialects(ds).len() ==> used_dialects(ds)[i] != used_dialects(ds)[j],
        forall|k: int|
            0 <= k < ds.len() ==> (#[trigger] ds[k] matches Delivery::Sent { sequence, .. }
                ==> used_dialects(ds).contains(sequence)),
    decreases ds.len(),
{
    if ds.len() > 0 {
        let prev = ds.drop_last();
        each_dialect_is_spelled_out_once(prev);
        let u = used_dialects(prev);
        assert forall|k: int|
            0 <= k < ds.len() implies (#[trigger] ds[k] matches Delivery::Sent { sequence, .. }
                ==> used_dialects(ds).contains(sequence)) by {
            if let Delivery::Sent { sequence, .. } = ds[k] {
                if k < ds.len() - 1 {
                    assert(prev[k] == ds[k]);
                    let j = choose|j: int| 0 <= j < u.len() && u[j] == sequence;
                    if let Delivery::Sent { sequence: last, .. } = ds.last() {
                        if !u.contains(last) {
                            assert(used_dialects(ds)[j] == sequence);
                        }
                    }
                } else {
                    if !u.contains(sequence) {
                        assert(used_dialects(ds)[u.len() as int] == sequence);
                    }
                }
            }
        }
    }
}

/// Without a terminal the report says so and nothing more.
pub proof fn no_terminal_means_one_section(inside_tmux: bool, test: Option<Delivery>, os: Seq<char>)
    ensures
        report_text(ResolutionModel::NoTty, inside_tmux, test, os) == terminal_text(
            ResolutionModel::NoTty,
            inside_tmux,
        ),
{
    assert(report_text(ResolutionModel::NoTty, inside_tmux, test, os) =~= terminal_text(
        ResolutionModel::NoTty,
        inside_tmux,
    ));
}

/// Where there is a terminal, the report goes on to what peal sends there: under its
/// heading, a single row for "any notification" when all four sample notifications fare
/// alike, else one row for each in turn, then the wire format of each dialect used.
pub proof fn the_dialects_are_shown_once_or_shape_by_shape(
    r: ResolutionModel,
    inside_tmux: bool,
    test: Option<Delivery>,
    os: Seq<char>,
)
    requires
        !(r is NoTty),
    ensures
        ({
            let d = previews_of(r);
            let rows = if d[1] == d[0] && d[2] == d[0] && d[3] == d[0] {
                row_text("any notification"@, d[0])
            } else {
                row_text("a plain notification"@, d[0]) + row_text("with a title"@, d[1])
                    + row_text("with a name"@, d[2]) + row_text("with both"@, d[3])
            };
            report_text(r, inside_tmux, test, os) == terminal_text(r, inside_tmux) + SENDS_HEADING@
                + rows + forms_text(d) + match test {
                Some(t) => test_text(t, os),
                None => Seq::empty(),
            }
        }),
{
    let d = previews_of(r);
    assert(report_text(r, inside_tmux, test, os) =~= terminal_text(r, inside_tmux) + SENDS_HEADING@
        + rows_text(d) + forms_text(d) + match test {
        Some(t) => test_text(t, os),
        None => Seq::empty(),
    });
}

} // verus!
