//! The `peal` command line: what the arguments ask for, and what to say about a
//! notification afterwards. Reading the arguments and printing happen outside the library.
use vstd::prelude::*;

use crate::notify::{Delivery, Notification, NotificationModel};
use crate::text::{chars_of, push_str, same_text};

verus! {

broadcast use vstd::string::group_string_axioms;

/// What the command line asks for.
#[derive(Debug, Clone, PartialEq, Eq)]
pub enum Command {
    Notify(Notification),
    Doctor,
    Probe,
    Help,
    Version,
}

/// What a [`Command`] says.
pub enum CommandModel {
    Notify(NotificationModel),
    Doctor,
    Probe,
    Help,
    Version,
}

impl View for Command {
    type V = CommandModel;

    open spec fn view(&self) -> CommandModel {
        match self {
            Command::Notify(n) => CommandModel::Notify(n@),
            Command::Doctor => CommandModel::Doctor,
            Command::Probe => CommandModel::Probe,
            Command::Help => CommandModel::Help,
            Command::Version => CommandModel::Version,
        }
    }
}

/// What `{:?}` makes of a string: the string quoted, with the characters Rust escapes
/// escaped. The escaping rules are not restated here.
pub uninterp spec fn debug_text(s: Seq<char>) -> Seq<char>;

/// `<str as Debug>::fmt`, through `format!("{:?}")`. Its contract names the result and
/// says nothing of its form.
#[verifier::external_body]
pub(crate) fn debug_quoted(s: &str) -> (r: String)
    ensures
        r@ == debug_text(s@),
{
    format!("{:?}", s)
}

/// The command for a body, once the arguments are all read.
pub open spec fn finished(
    title: Option<Seq<char>>,
    name: Option<Seq<char>>,
    body: Option<Seq<char>>,
) -> Result<CommandModel, Seq<char>> {
    match body {
        Some(b) => Ok(CommandModel::Notify(NotificationModel { title, body: b, id: name })),
        None => Err("no body given"@),
    }
}

/// Whether an argument looks like an option.
pub open spec fn is_option(a: Seq<char>) -> bool {
    a.len() > 0 && a[0] == '-'
}

/// Reading the arguments from position `i` on, with what has been read so far.
pub open spec fn read_from(
    args: Seq<Seq<char>>,
    i: int,
    title: Option<Seq<char>>,
    name: Option<Seq<char>>,
    body: Option<Seq<char>>,
) -> Result<CommandModel, Seq<char>>
    decreases args.len() - i,
{
    if i < 0 || i >= args.len() {
        finished(title, name, body)
    } else {
        let a = args[i];
        if a == "--title"@ {
            if i + 1 < args.len() {
                read_from(args, i + 2, Some(args[i + 1]), name, body)
            } else {
                Err("--title needs a value"@)
            }
        } else if a == "--name"@ {
            if i + 1 < args.len() {
                read_from(args, i + 2, title, Some(args[i + 1]), body)
            } else {
                Err("--name needs a value"@)
            }
        } else if a == "-h"@ || a == "--help"@ {
            Ok(CommandModel::Help)
        } else if a == "-V"@ || a == "--version"@ {
            Ok(CommandModel::Version)
        } else if a == "--"@ {
            // Everything after `--` is the body, which is how a body of "doctor" or one
            // starting with a dash gets through.
            let rest = args.len() - (i + 1);
            if rest == 1 {
                finished(title, name, Some(args[i + 1]))
            } else if rest == 0 {
                Err("no body given after --"@)
            } else {
                Err("expected one body, got several"@)
            }
        } else if is_option(a) {
            Err("unknown option "@ + a)
        } else if body is Some {
            Err("expected one body, also got "@ + debug_text(a))
        } else {
            read_from(args, i + 1, title, name, Some(a))
        }
    }
}

/// What the arguments ask for: help when there are none, a command when the only one
/// names one, and otherwise a notification read from a body and two options.
pub open spec fn parsed(args: Seq<Seq<char>>) -> Result<CommandModel, Seq<char>> {
    if args.len() == 0 {
        Ok(CommandModel::Help)
    } else if args.len() == 1 && args[0] == "doctor"@ {
        Ok(CommandModel::Doctor)
    } else if args.len() == 1 && args[0] == "probe"@ {
        Ok(CommandModel::Probe)
    } else if args.len() == 1 && (args[0] == "-h"@ || args[0] == "--help"@) {
        Ok(CommandModel::Help)
    } else if args.len() == 1 && (args[0] == "-V"@ || args[0] == "--version"@) {
        Ok(CommandModel::Version)
    } else {
        read_from(args, 0, None, None, None)
    }
}

/// The arguments by their characters.
pub open spec fn arguments_of(args: &[String]) -> Seq<Seq<char>> {
    args@.map_values(|a: String| a@)
}

/// The model of a parse result.
pub open spec fn parse_result_of(r: Result<Command, String>) -> Result<CommandModel, Seq<char>> {
    match r {
        Ok(c) => Ok(c@),
        Err(e) => Err(e@),
    }
}

fn literal(s: &str) -> (r: String)
    ensures
        r@ == s@,
{
    s.to_owned()
}

fn opt_owned(s: Option<&str>) -> (r: Option<String>)
    ensures
        crate::opt_view(r) == crate::detect::env::opt_str(s),
{
    match s {
        Some(s) => Some(s.to_owned()),
        None => None,
    }
}

fn finish(title: Option<&str>, name: Option<&str>, body: Option<&str>) -> (r: Result<
    Command,
    String,
>)
    ensures
        parse_result_of(r) == finished(
            crate::detect::env::opt_str(title),
            crate::detect::env::opt_str(name),
            crate::detect::env::opt_str(body),
        ),
{
    match body {
        Some(b) => Ok(
            Command::Notify(Notification { title: opt_owned(title), body: b.to_owned(), id: opt_owned(name) }),
        ),
        None => Err(literal("no body given")),
    }
}

impl Command {
    /// Reads the arguments, the program's name left off.
    ///
    /// Hand-rolled because the whole grammar is one body and two options.
    pub fn parse(arguments: &[String]) -> (r: Result<Self, String>)
        ensures
            parse_result_of(r) == parsed(arguments_of(arguments)),
    {
        let ghost args = arguments_of(arguments);
        let n = arguments.len();
        if n == 0 {
            return Ok(Command::Help);
        }
        assert(args[0] == arguments@[0]@);
        if n == 1 {
            let only = arguments[0].as_str();
            if same_text(only, "doctor") {
                return Ok(Command::Doctor);
            }
            if same_text(only, "probe") {
                return Ok(Command::Probe);
            }
            if same_text(only, "-h") || same_text(only, "--help") {
                return Ok(Command::Help);
            }
            if same_text(only, "-V") || same_text(only, "--version") {
                return Ok(Command::Version);
            }
        }
        let mut title: Option<&str> = None;
        let mut name: Option<&str> = None;
        let mut body: Option<&str> = None;
        let mut i: usize = 0;
        while i < n
            invariant
                n == arguments@.len(),
                args == arguments_of(arguments),
                i <= n,
                parsed(args) == read_from(
                    args,
                    i as int,
                    crate::detect::env::opt_str(title),
                    crate::detect::env::opt_str(name),
                    crate::detect::env::opt_str(body),
                ),
            decreases n - i,
        {
            let argument = arguments[i].as_str();
            assert(args[i as int] == argument@);
            if same_text(argument, "--title") {
                if i + 1 < n {
                    title = Some(arguments[i + 1].as_str());
                    assert(args[i + 1] == arguments@[i + 1]@);
                    i += 2;
                } else {
                    return Err(literal("--title needs a value"));
                }
            } else if same_text(argument, "--name") {
                if i + 1 < n {
                    name = Some(arguments[i + 1].as_str());
                    assert(args[i + 1] == arguments@[i + 1]@);
                    i += 2;
                } else {
                    return Err(literal("--name needs a value"));
                }
            } else if same_text(argument, "-h") || same_text(argument, "--help") {
                return Ok(Command::Help);
            } else if same_text(argument, "-V") || same_text(argument, "--version") {
                return Ok(Command::Version);
            } else if same_text(argument, "--") {
                let rest = n - (i + 1);
                if rest == 1 {
                    assert(args[i + 1] == arguments@[i + 1]@);
                    return finish(title, name, Some(arguments[i + 1].as_str()));
                } else if rest == 0 {
                    return Err(literal("no body given after --"));
                } else {
                    return Err(literal("expected one body, got several"));
                }
            } else {
                let v = chars_of(argument);
                if v.len() > 0 && v[0] == '-' {
                    let mut message = literal("unknown option ");
                    push_str(&mut message, argument);
                    return Err(message);
                }
                if body.is_some() {
                    let mut message = literal("expected one body, also got ");
                    let quoted = debug_quoted(argument);
                    push_str(&mut message, quoted.as_str());
                    return Err(message);
                }
                body = Some(argument);
                i += 1;
            }
        }
        finish(title, name, body)
    }
}

/// Said when the title had to join the body.
pub const FOLDED_TITLE: &'static str =
    "peal: this terminal shows no separate title; it was folded into the body";

/// Said when the name had to be given up.
pub const DROPPED_NAME: &'static str =
    "peal: this terminal cannot replace a notification; the name was dropped";

/// Said when only the bell could be rung.
pub const RANG_THE_BELL: &'static str =
    "peal: this terminal raises no notifications; rang the bell instead";

/// Said when there was no terminal to send to.
pub const NO_TERMINAL_ATTACHED: &'static str = "peal: no terminal attached; nothing was sent";

/// What to say about a delivery, one line each.
pub open spec fn announcement_lines(d: Delivery) -> Seq<Seq<char>> {
    match d {
        Delivery::Sent { folded_title, dropped_id, .. } => (if folded_title {
            seq![FOLDED_TITLE@]
        } else {
            Seq::empty()
        }) + (if dropped_id {
            seq![DROPPED_NAME@]
        } else {
            Seq::empty()
        }),
        Delivery::Bell => seq![RANG_THE_BELL@],
        Delivery::Nothing => seq![NO_TERMINAL_ATTACHED@],
    }
}

/// Says only what the caller could not have predicted. A notification that went out
/// whole needs no commentary; one that was reduced or never sent does.
pub fn announcements(delivery: &Delivery) -> (r: Vec<&'static str>)
    ensures
        r@.map_values(|s: &str| s@) == announcement_lines(*delivery),
{
    let mut lines: Vec<&'static str> = Vec::new();
    match delivery {
        Delivery::Sent { folded_title, dropped_id, .. } => {
            if *folded_title {
                lines.push(FOLDED_TITLE);
            }
            if *dropped_id {
                lines.push(DROPPED_NAME);
            }
        },
        Delivery::Bell => lines.push(RANG_THE_BELL),
        Delivery::Nothing => lines.push(NO_TERMINAL_ATTACHED),
    }
    assert(lines@.map_values(|s: &str| s@) =~= announcement_lines(*delivery));
    lines
}

proof fn lemma_words_are_options()
    ensures
        is_option("--title"@),
        is_option("--name"@),
        is_option("-h"@),
        is_option("--help"@),
        is_option("-V"@),
        is_option("--version"@),
        is_option("--"@),
{
    reveal_strlit("--title");
    reveal_strlit("--name");
    reveal_strlit("-h");
    reveal_strlit("--help");
    reveal_strlit("-V");
    reveal_strlit("--version");
    reveal_strlit("--");
}

/// Options after the body read the same as options before it.
pub proof fn options_read_the_same_after_the_body(body: Seq<char>, title: Seq<char>, name: Seq<char>)
    requires
        !is_option(body),
    ensures
        parsed(seq![body, "--title"@, title]) == parsed(seq!["--title"@, title, body]),
        parsed(seq![body, "--name"@, name]) == parsed(seq!["--name"@, name, body]),
{
    lemma_words_are_options();
    reveal_strlit("--title");
    reveal_strlit("--name");
    let a = seq![body, "--title"@, title];
    let b = seq!["--title"@, title, body];
    assert(read_from(a, 1, None, None, Some(body)) == read_from(a, 3, Some(title), None, Some(body)));
    assert(read_from(b, 2, Some(title), None, None) == read_from(b, 3, Some(title), None, Some(body)));
    let c = seq![body, "--name"@, name];
    let d = seq!["--name"@, name, body];
    assert(read_from(c, 1, None, None, Some(body)) == read_from(c, 3, None, Some(name), Some(body)));
    assert(read_from(d, 2, None, Some(name), None) == read_from(d, 3, None, Some(name), Some(body)));
}

/// Whatever follows a lone `--` is the body, even a word that would otherwise be a
/// command or an option.
pub proof fn a_double_dash_makes_anything_the_body(body: Seq<char>)
    ensures
        parsed(seq!["--"@, body]) == Ok::<CommandModel, Seq<char>>(
            CommandModel::Notify(NotificationModel { title: None, body, id: None }),
        ),
{
    reveal_strlit("--title");
    reveal_strlit("--name");
    reveal_strlit("-h");
    reveal_strlit("--help");
    reveal_strlit("-V");
    reveal_strlit("--version");
    reveal_strlit("--");
    let a = seq!["--"@, body];
    assert("--"@.len() == 2);
    assert("--title"@.len() == 7);
    assert("--name"@.len() == 6);
    assert("--help"@.len() == 6);
    assert("--version"@.len() == 9);
    assert("-h"@[1] == 'h');
    assert("-V"@[1] == 'V');
    assert("--"@[1] == '-');
    assert(a[0] != "--title"@);
    assert(a[0] != "--name"@);
    assert(a[0] != "--help"@);
    assert(a[0] != "--version"@);
    assert(a[0] != "-h"@);
    assert(a[0] != "-V"@);
}

/// With no arguments at all the command asks for help.
pub proof fn no_arguments_ask_for_help()
    ensures
        parsed(Seq::empty()) == Ok::<CommandModel, Seq<char>>(CommandModel::Help),
{
}

/// A notification that went out whole is passed over in silence, and anything else is
/// remarked on.
pub proof fn whole_deliveries_go_unremarked(d: Delivery)
    ensures
        announcement_lines(d).len() == 0 <==> d matches Delivery::Sent {
            folded_title: false,
            dropped_id: false,
            ..
        },
{
}

/// Options read before a `--` are kept: the title and the name go with the body that
/// follows it, whatever that body is.
pub proof fn options_before_a_double_dash_are_kept(title: Seq<char>, name: Seq<char>, body: Seq<char>)
    ensures
        parsed(seq!["--title"@, title, "--"@, body]) == Ok::<CommandModel, Seq<char>>(
            CommandModel::Notify(NotificationModel { title: Some(title), body, id: None }),
        ),
        parsed(seq!["--name"@, name, "--"@, body]) == Ok::<CommandModel, Seq<char>>(
            CommandModel::Notify(NotificationModel { title: None, body, id: Some(name) }),
        ),
        parsed(seq!["--title"@, title, "--name"@, name, "--"@, body]) == Ok::<
            CommandModel,
            Seq<char>,
        >(CommandModel::Notify(NotificationModel { title: Some(title), body, id: Some(name) })),
{
    reveal_strlit("--title");
    reveal_strlit("--name");
    reveal_strlit("-h");
    reveal_strlit("--help");
    reveal_strlit("-V");
    reveal_strlit("--version");
    reveal_strlit("--");
    assert("--"@.len() == 2);
    assert("--title"@.len() == 7);
    assert("--name"@.len() == 6);
    assert("--help"@.len() == 6);
    assert("--version"@.len() == 9);
    assert("-h"@[1] == 'h');
    assert("-V"@[1] == 'V');
    assert("--"@[1] == '-');
    assert("--"@ != "--title"@);
    assert("--"@ != "--name"@);
    assert("--"@ != "--help"@);
    assert("--"@ != "--version"@);
    assert("--"@ != "-h"@);
    assert("--"@ != "-V"@);
    assert("--name"@ != "--title"@);
    let a = seq!["--title"@, title, "--"@, body];
    assert(read_from(a, 2, Some(title), None, None) == finished(Some(title), None, Some(body)));
    let b = seq!["--name"@, name, "--"@, body];
    assert(read_from(b, 2, None, Some(name), None) == finished(None, Some(name), Some(body)));
    let c = seq!["--title"@, title, "--name"@, name, "--"@, body];
    assert(read_from(c, 4, Some(title), Some(name), None) == finished(Some(title), Some(name), Some(body)));
    assert(read_from(c, 2, Some(title), None, None) == read_from(c, 4, Some(title), Some(name), None));
}

} // verus!
