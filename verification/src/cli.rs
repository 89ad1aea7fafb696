//! The command line: what to do next, what to print and which code to exit
//! with.
//!
//! Each function takes what the outside world has answered so far and says how
//! the program goes on, or how it ends.

use vstd::prelude::*;
use vstd::string::*;

use crate::json;
use crate::json::grammar::TaskView;
use crate::manifest;
use crate::manifest::{Kind, Manifest, Start};
use crate::run;
use crate::run::Attempt;
use crate::text;
use crate::text::{append_decimal, join, lists, pad_to};

verus! {

pub const EXIT_USAGE: i32 = 1;

/// The conventional code for a command interrupted at the terminal.
pub const EXIT_CANCELLED: i32 = 130;

/// How the program ends: what goes to standard output and standard error, and
/// the exit code.
#[derive(Debug, PartialEq)]
pub struct Exit {
    pub out: String,
    pub err: String,
    pub code: i32,
}

/// What became of the picker.
#[derive(Debug, PartialEq)]
pub enum Picked {
    Chosen(usize),
    Cancelled,
    NotInteractive,
    Failed(String),
}

/// A command to run, and the line that says so.
#[derive(Debug, PartialEq)]
pub struct Launch {
    pub bin: String,
    pub args: Vec<String>,
    pub echo: String,
}

/// What an end of the program consists of.
pub struct ExitView {
    pub out: Seq<char>,
    pub err: Seq<char>,
    pub code: int,
}

/// What a command to run consists of.
pub struct LaunchView {
    pub bin: Seq<char>,
    pub args: Seq<Seq<char>>,
    pub echo: Seq<char>,
}

impl View for Exit {
    type V = ExitView;

    open spec fn view(&self) -> ExitView {
        ExitView { out: self.out@, err: self.err@, code: self.code as int }
    }
}

impl View for Launch {
    type V = LaunchView;

    open spec fn view(&self) -> LaunchView {
        LaunchView { bin: self.bin@, args: text::texts(self.args@), echo: self.echo@ }
    }
}

/// An end with a message on standard error.
pub open spec fn failed(message: Seq<char>) -> ExitView {
    ExitView { out: Seq::empty(), err: "pkgr: "@ + message + "\n"@, code: EXIT_USAGE as int }
}

/// Ends the program with a message on standard error.
fn fail(message: &str) -> (r: Exit)
    ensures
        r@ == failed(message@),
{
    let mut err = "pkgr: ".to_owned();
    err.append(message);
    err.append("\n");
    Exit { out: String::new(), err, code: EXIT_USAGE }
}

// ---------------------------------------------------------------------------
// Arguments
// ---------------------------------------------------------------------------
/// How to use the program.
pub const USAGE: &'static str = "pkgr - pick and run a script from package.json or deno.json

Usage:
  pkgr [path]

  path   a directory holding package.json, deno.json or deno.jsonc,
         or one of those files directly. Defaults to the current directory.

Flags:
  -version   print the version and exit
  -h         show this help

Examples:
  pkgr
  pkgr .
  pkgr ./packages/api
  pkgr ./packages/api/package.json
";

pub open spec fn asks_version(args: Seq<Seq<char>>) -> bool {
    args.contains("-version"@) || args.contains("--version"@)
}

pub open spec fn asks_help(args: Seq<Seq<char>>) -> bool {
    args.contains("-h"@) || args.contains("--help"@) || args.contains("-help"@)
}

/// What the arguments call for: the path to go on with, empty for the current
/// directory, or an end.
pub open spec fn begun(args: Seq<Seq<char>>, version: Seq<char>) -> Result<Seq<char>, ExitView> {
    if asks_version(args) {
        Err(ExitView { out: "pkgr "@ + version + "\n"@, err: Seq::empty(), code: 0 })
    } else if asks_help(args) {
        Err(ExitView { out: Seq::empty(), err: USAGE@, code: 0 })
    } else if args.len() > 1 {
        Err(
            ExitView {
                out: Seq::empty(),
                err: "pkgr: expected at most one path, got "@ + text::decimal(args.len()) + "\n"@
                    + USAGE@,
                code: EXIT_USAGE as int,
            },
        )
    } else if args.len() == 1 {
        Ok(args[0])
    } else {
        Ok(Seq::empty())
    }
}

/// Reads the arguments: the path to go on with, empty for the current
/// directory, or how to end.
pub fn begin(args: &Vec<String>, version: &str) -> (r: Result<String, Exit>)
    ensures
        match begun(text::texts(args@), version@) {
            Ok(path) => r matches Ok(p) && p@ == path,
            Err(exit) => r matches Err(e) && e@ == exit,
        },
{
    if lists(args, "-version") || lists(args, "--version") {
        let mut out = "pkgr ".to_owned();
        out.append(version);
        out.append("\n");
        return Err(Exit { out, err: String::new(), code: 0 });
    }
    if lists(args, "-h") || lists(args, "--help") || lists(args, "-help") {
        return Err(Exit { out: String::new(), err: USAGE.to_owned(), code: 0 });
    }
    if args.len() > 1 {
        let mut err = "pkgr: expected at most one path, got ".to_owned();
        append_decimal(&mut err, args.len());
        err.append("\n");
        err.append(USAGE);
        return Err(Exit { out: String::new(), err, code: EXIT_USAGE });
    }
    if args.len() == 1 {
        assert(text::texts(args@)[0] == args@[0]@);
        Ok(args[0].clone())
    } else {
        Ok(String::new())
    }
}

// ---------------------------------------------------------------------------
// The manifest
// ---------------------------------------------------------------------------
/// Finds the manifest, or says how to end.
pub fn locate(start: &Start) -> (r: Result<Manifest, Exit>)
    ensures
        match manifest::resolved(*start) {
            Ok(m) => r matches Ok(found) && found@ == m,
            Err(e) => r matches Err(exit) && exit@ == failed(manifest::message(e)),
        },
{
    match manifest::resolve(start) {
        Ok(m) => Ok(m),
        Err(e) => Err(fail(e.describe().as_str())),
    }
}

/// What the manifest's text, or the reason why there is none, leads to.
pub open spec fn loaded(path: Seq<char>, key: Seq<char>, read: Result<Seq<char>, Seq<char>>) -> Result<
    json::grammar::ManifestView,
    ExitView,
> {
    match read {
        Err(msg) => Err(failed("cannot read "@ + path + ": "@ + msg)),
        Ok(source) => match json::grammar::document(source, key) {
            Ok(parsed) => Ok(parsed),
            Err(e) => Err(failed(path + ": "@ + json::message(e))),
        },
    }
}

/// Reads the tasks out of the manifest's text, or says how to end.
pub fn load(m: &Manifest, read: &Result<String, String>) -> (r: Result<json::Manifest, Exit>)
    ensures
        match loaded(
            m.path@,
            manifest::key(m.kind),
            (match read {
                Ok(source) => Ok(source@),
                Err(msg) => Err(msg@),
            }),
        ) {
            Ok(parsed) => r matches Ok(p) && p@ == parsed,
            Err(exit) => r matches Err(e) && e@ == exit,
        },
{
    match read {
        Ok(source) => match json::parse(source.as_str(), m.task_key()) {
            Ok(parsed) => Ok(parsed),
            Err(e) => {
                let mut msg = m.path.clone();
                msg.append(": ");
                msg.append(e.describe().as_str());
                Err(fail(msg.as_str()))
            },
        },
        Err(e) => {
            let mut msg = "cannot read ".to_owned();
            msg.append(m.path.as_str());
            msg.append(": ");
            msg.append(e.as_str());
            Err(fail(msg.as_str()))
        },
    }
}

// ---------------------------------------------------------------------------
// The choice
// ---------------------------------------------------------------------------
/// The path to show: the one relative to the current directory, when the
/// manifest sits under it.
pub fn display_path(relative: Option<&str>, path: &str) -> (r: String)
    ensures
        r@ == (match relative {
            Some(rel) => rel@,
            None => path@,
        }),
{
    match relative {
        Some(rel) => rel.to_owned(),
        None => path.to_owned(),
    }
}

/// The picker's title.
pub fn title(path: &str) -> (r: String)
    ensures
        r@ == "Select a task  ("@ + path@ + ")"@,
{
    let mut out = "Select a task  (".to_owned();
    out.append(path);
    out.append(")");
    out
}

/// A command as it is typed.
pub open spec fn command_line(
    kind: Kind,
    field: Seq<char>,
    beside: Seq<Seq<char>>,
    task: Seq<char>,
) -> Seq<char> {
    manifest::manager(kind, field, beside) + " "@ + text::joined(
        seq![manifest::verb(kind), task],
        " "@,
    )
}

/// The line of a listing that is about one task.
pub open spec fn listed_task(
    kind: Kind,
    parsed: json::grammar::ManifestView,
    beside: Seq<Seq<char>>,
    k: int,
) -> Seq<char> {
    let name = parsed.tasks[k].name;
    "  "@ + text::padded(name, 16) + " "@ + command_line(
        kind,
        parsed.package_manager,
        beside,
        name,
    ) + "\n"@
}

/// The first `n` tasks, each with the command that would run it.
pub open spec fn listed(
    kind: Kind,
    parsed: json::grammar::ManifestView,
    beside: Seq<Seq<char>>,
    n: nat,
) -> Seq<char>
    decreases n,
{
    if n == 0 {
        Seq::empty()
    } else {
        listed(kind, parsed, beside, (n - 1) as nat) + listed_task(kind, parsed, beside, n - 1)
    }
}

/// All tasks with the commands that would run them.
pub open spec fn listing(
    m: manifest::ManifestView,
    parsed: json::grammar::ManifestView,
    beside: Seq<Seq<char>>,
) -> Seq<char> {
    "\nTasks in "@ + m.path + ":\n"@ + listed(m.kind, parsed, beside, parsed.tasks.len())
}

proof fn lemma_listed(
    kind: Kind,
    parsed: json::grammar::ManifestView,
    beside: Seq<Seq<char>>,
    n: nat,
    k: int,
) -> (around: (Seq<char>, Seq<char>))
    requires
        0 <= k < n,
    ensures
        listed(kind, parsed, beside, n) == around.0 + listed_task(kind, parsed, beside, k)
            + around.1,
    decreases n,
{
    let before = listed(kind, parsed, beside, (n - 1) as nat);
    let line = listed_task(kind, parsed, beside, k);
    let last = listed_task(kind, parsed, beside, n - 1);
    if k == n - 1 {
        assert(before + line =~= before + line + Seq::<char>::empty());
        (before, Seq::empty())
    } else {
        let (head, tail) = lemma_listed(kind, parsed, beside, (n - 1) as nat, k);
        assert(head + line + tail + last =~= head + line + (tail + last));
        (head, tail + last)
    }
}

/// Every task is listed, with the command that would run it.
pub proof fn every_task_is_listed(
    m: manifest::ManifestView,
    parsed: json::grammar::ManifestView,
    beside: Seq<Seq<char>>,
    k: int,
)
    requires
        0 <= k < parsed.tasks.len(),
    ensures
        exists|head: Seq<char>, tail: Seq<char>|
            listing(m, parsed, beside) == #[trigger] (head + listed_task(
                m.kind,
                parsed,
                beside,
                k,
            ) + tail),
{
    let line = listed_task(m.kind, parsed, beside, k);
    let (head, tail) = lemma_listed(m.kind, parsed, beside, parsed.tasks.len(), k);
    let front = "\nTasks in "@ + m.path + ":\n"@;
    assert(front + (head + line + tail) =~= front + head + line + tail);
}

/// The tasks and the command that would run each one, for when the picker
/// cannot be shown.
pub fn list_tasks(m: &Manifest, parsed: &json::Manifest, beside: &Vec<String>) -> (r: String)
    ensures
        r@ == listing(m@, parsed@, text::texts(beside@)),
{
    let mut out = "\nTasks in ".to_owned();
    out.append(m.path.as_str());
    out.append(":\n");
    let ghost head = out@;
    let ghost others = text::texts(beside@);
    let mut i: usize = 0;
    assert(out@ =~= head + listed(m.kind, parsed@, others, 0));
    while i < parsed.tasks.len()
        invariant
            i <= parsed.tasks@.len(),
            others == text::texts(beside@),
            out@ == head + listed(m.kind, parsed@, others, i as nat),
        decreases parsed.tasks@.len() - i,
    {
        let ghost before = out@;
        let name = parsed.tasks[i].name.as_str();
        let (bin, args) = manifest::command(m, parsed.package_manager.as_str(), beside, name);
        assert(parsed@.tasks[i as int].name == name@);
        out.append("  ");
        out.append(name);
        pad_to(&mut out, name.unicode_len(), 16);
        out.append(" ");
        out.append(bin.as_str());
        out.append(" ");
        out.append(join(&args, " ").as_str());
        out.append("\n");
        i = i + 1;
        assert(out@ =~= before + listed_task(m.kind, parsed@, others, i - 1));
        assert(out@ =~= head + listed(m.kind, parsed@, others, i as nat));
    }
    out
}

/// What the picker's answer leads to: a command to run, or an end.
pub open spec fn chosen(
    m: manifest::ManifestView,
    parsed: json::grammar::ManifestView,
    beside: Seq<Seq<char>>,
    picked: Picked,
) -> Result<LaunchView, ExitView> {
    match picked {
        Picked::Chosen(index) => {
            let task = parsed.tasks[index as int].name;
            Ok(
                LaunchView {
                    bin: manifest::manager(m.kind, parsed.package_manager, beside),
                    args: seq![manifest::verb(m.kind), task],
                    echo: "\n> "@ + command_line(m.kind, parsed.package_manager, beside, task)
                        + "\n\n"@,
                },
            )
        },
        Picked::Cancelled => Err(
            ExitView { out: Seq::empty(), err: Seq::empty(), code: EXIT_CANCELLED as int },
        ),
        // Nothing can be picked, but showing what is on offer beats leaving the
        // caller with only an error.
        Picked::NotInteractive => Err(
            ExitView {
                out: Seq::empty(),
                err: failed("pkgr needs an interactive terminal to choose a task"@).err + listing(
                    m,
                    parsed,
                    beside,
                ),
                code: EXIT_USAGE as int,
            },
        ),
        Picked::Failed(msg) => Err(failed(msg@)),
    }
}

/// Only a choice runs anything. Cancelling ends quietly with a code of its own.
pub proof fn only_a_choice_runs_something(
    m: manifest::ManifestView,
    parsed: json::grammar::ManifestView,
    beside: Seq<Seq<char>>,
    picked: Picked,
)
    ensures
        chosen(m, parsed, beside, picked) is Ok <==> picked is Chosen,
        chosen(m, parsed, beside, picked) matches Err(exit) ==> (exit.code == EXIT_CANCELLED
            <==> picked is Cancelled),
        picked is Cancelled ==> chosen(m, parsed, beside, picked)->Err_0.err.len() == 0,
{
}

/// Turns the picker's answer into a command to run, or says how to end.
pub fn choose_command(
    m: &Manifest,
    parsed: &json::Manifest,
    beside: &Vec<String>,
    picked: &Picked,
) -> (r: Result<Launch, Exit>)
    requires
        picked matches Picked::Chosen(index) ==> index < parsed.tasks@.len(),
    ensures
        match chosen(m@, parsed@, text::texts(beside@), *picked) {
            Ok(launch) => r matches Ok(l) && l@ == launch,
            Err(exit) => r matches Err(e) && e@ == exit,
        },
{
    match picked {
        Picked::Chosen(index) => {
            let name = parsed.tasks[*index].name.as_str();
            let (bin, args) = manifest::command(m, parsed.package_manager.as_str(), beside, name);
            // Echo the command so it is obvious what ran, and so the line can be
            // copied straight back into the shell.
            let mut echo = "\n> ".to_owned();
            echo.append(bin.as_str());
            echo.append(" ");
            echo.append(join(&args, " ").as_str());
            echo.append("\n\n");
            assert(parsed@.tasks[*index as int].name == name@);
            assert(echo@ =~= "\n> "@ + command_line(
                m.kind,
                parsed@.package_manager,
                text::texts(beside@),
                name@,
            ) + "\n\n"@);
            Ok(Launch { bin, args, echo })
        },
        Picked::Cancelled => Err(
            Exit { out: String::new(), err: String::new(), code: EXIT_CANCELLED },
        ),
        Picked::NotInteractive => {
            let mut exit = fail("pkgr needs an interactive terminal to choose a task");
            exit.err.append(list_tasks(m, parsed, beside).as_str());
            Err(exit)
        },
        Picked::Failed(msg) => Err(fail(msg.as_str())),
    }
}

/// How the program ends once a tool has been run: with its own exit code, or
/// with the reason why it did not run.
pub fn finish(bin: &str, attempt: &Attempt) -> (r: Exit)
    ensures
        match attempt {
            Attempt::Ended(code) => r@ == (ExitView {
                out: Seq::empty(),
                err: Seq::empty(),
                code: (match code {
                    Some(c) => *c as int,
                    None => run::INTERRUPTED as int,
                }),
            }),
            _ => r@ == failed(run::trouble(bin@, *attempt)),
        },
{
    match run::run(bin, attempt) {
        Ok(code) => Exit { out: String::new(), err: String::new(), code },
        Err(msg) => fail(msg.as_str()),
    }
}

// ---------------------------------------------------------------------------
// What holds of it
// ---------------------------------------------------------------------------
/// What an end and a launch hold is all they hold.
pub proof fn views_leave_nothing_out(exit: Exit, launch: Launch)
    ensures
        exit@.out == exit.out@ && exit@.err == exit.err@ && exit@.code == exit.code,
        launch@.bin == launch.bin@ && launch@.echo == launch.echo@,
        launch@.args.len() == launch.args@.len(),
        forall|i: int| 0 <= i < launch.args@.len() ==> launch@.args[i] == (
        #[trigger] launch.args@[i])@,
{
}

/// A failure is one line on standard error, and nothing else.
pub proof fn failures_are_one_message(message: Seq<char>)
    ensures
        failed(message).err == "pkgr: "@ + message + "\n"@,
        failed(message).out.len() == 0,
        failed(message).code == 1,
{
}

/// A flag decides wherever it stands, the version before the help. Without one,
/// a single argument is the path, none is the current directory, and more are
/// too many.
pub proof fn flags_decide_before_paths(args: Seq<Seq<char>>, version: Seq<char>)
    ensures
        ({
            let v = args.contains("-version"@) || args.contains("--version"@);
            let h = args.contains("-h"@) || args.contains("--help"@) || args.contains("-help"@);
            let r = begun(args, version);
            &&& v ==> (r matches Err(exit) && exit.out == "pkgr "@ + version + "\n"@
                && exit.err.len() == 0 && exit.code == 0)
            &&& !v && h ==> (r matches Err(exit) && exit.out.len() == 0 && exit.err == USAGE@
                && exit.code == 0)
            &&& !v && !h && args.len() > 1 ==> (r matches Err(exit) && exit.out.len() == 0
                && exit.err == "pkgr: expected at most one path, got "@ + text::decimal(args.len())
                + "\n"@ + USAGE@ && exit.code == 1)
            &&& !v && !h && args.len() == 1 ==> r == Ok::<_, ExitView>(args[0])
            &&& !v && !h && args.len() == 0 ==> (r matches Ok(path) && path.len() == 0)
        }),
{
}

/// A manifest that cannot be read, or holds something wrong, is named together
/// with what is wrong. One that can be read gives what it holds.
pub proof fn loading_names_the_manifest(path: Seq<char>, key: Seq<char>, source: Seq<char>)
    ensures
        loaded(path, key, Err(source)) == Err::<json::grammar::ManifestView, _>(
            failed("cannot read "@ + path + ": "@ + source),
        ),
        match json::grammar::document(source, key) {
            Ok(m) => loaded(path, key, Ok(source)) == Ok::<_, ExitView>(m),
            Err(json::grammar::ErrorView::NoTasks) => loaded(path, key, Ok(source)) == Err::<
                json::grammar::ManifestView,
                _,
            >(failed(path + ": "@ + "no scripts or tasks declared"@)),
            Err(json::grammar::ErrorView::Syntax { at, msg }) => loaded(path, key, Ok(source))
                == Err::<json::grammar::ManifestView, _>(
                failed(path + ": "@ + (msg + " at byte "@ + text::decimal(at as nat))),
            ),
        },
{
}

/// A command is typed as the tool, what the tool calls running a task, and the
/// task.
pub proof fn commands_are_typed_out(field: Seq<char>, beside: Seq<Seq<char>>, task: Seq<char>)
    ensures
        command_line(Kind::Npm, field, beside, task) == manifest::manager(
            Kind::Npm,
            field,
            beside,
        ) + " run "@ + task,
        command_line(Kind::Deno, field, beside, task) == "deno task "@ + task,
{
    lemma_typed_out(Kind::Npm, field, beside, task);
    lemma_typed_out(Kind::Deno, field, beside, task);
    reveal_strlit("run");
    reveal_strlit("task");
    reveal_strlit("deno");
    reveal_strlit(" ");
    reveal_strlit(" run ");
    reveal_strlit("deno task ");
    assert(" "@ + "run"@ + " "@ =~= " run "@);
    assert("deno"@ + " "@ + "task"@ + " "@ =~= "deno task "@);
    let tool = manifest::manager(Kind::Npm, field, beside);
    assert(tool + " "@ + "run"@ + " "@ + task =~= tool + (" "@ + "run"@ + " "@) + task);
}

proof fn lemma_typed_out(
    kind: Kind,
    field: Seq<char>,
    beside: Seq<Seq<char>>,
    task: Seq<char>,
)
    ensures
        command_line(kind, field, beside, task) == manifest::manager(kind, field, beside) + " "@
            + manifest::verb(kind) + " "@ + task,
{
    let verb = manifest::verb(kind);
    let tool = manifest::manager(kind, field, beside);
    text::joining_puts_the_separator_between(seq![verb], seq![task], verb, " "@);
    text::joining_puts_the_separator_between(seq![verb], seq![task], task, " "@);
    assert(seq![verb] + seq![task] =~= seq![verb, task]);
    assert(tool + " "@ + (verb + " "@ + task) =~= tool + " "@ + verb + " "@ + task);
}

/// The task that was chosen is the one that is run: it is the last argument, and
/// the line that is echoed ends with it and is the command that is run.
pub proof fn chosen_task_is_the_one_that_runs(
    m: manifest::ManifestView,
    parsed: json::grammar::ManifestView,
    beside: Seq<Seq<char>>,
    index: usize,
)
    requires
        index < parsed.tasks.len(),
    ensures
        chosen(m, parsed, beside, Picked::Chosen(index)) matches Ok(launch) && {
            &&& launch.args.len() == 2
            &&& launch.args[1] == parsed.tasks[index as int].name
            &&& launch.args[0] == if m.kind == Kind::Deno {
                "task"@
            } else {
                "run"@
            }
            &&& launch.bin == manifest::manager(m.kind, parsed.package_manager, beside)
            &&& launch.echo == "\n> "@ + launch.bin + " "@ + launch.args[0] + " "@
                + parsed.tasks[index as int].name + "\n\n"@
        },
{
    let task = parsed.tasks[index as int].name;
    let tool = manifest::manager(m.kind, parsed.package_manager, beside);
    let verb = manifest::verb(m.kind);
    lemma_typed_out(m.kind, parsed.package_manager, beside, task);
    assert("\n> "@ + (tool + " "@ + verb + " "@ + task) + "\n\n"@ =~= "\n> "@ + tool + " "@ + verb
        + " "@ + task + "\n\n"@);
}

/// Without a choice nothing runs: cancelling ends quietly, a failure says what
/// failed, and without a terminal the tasks are listed.
pub proof fn without_a_choice_the_reason_is_given(
    m: manifest::ManifestView,
    parsed: json::grammar::ManifestView,
    beside: Seq<Seq<char>>,
    why: String,
)
    ensures
        chosen(m, parsed, beside, Picked::Cancelled) matches Err(exit) && exit.out.len() == 0
            && exit.err.len() == 0 && exit.code == 130,
        chosen(m, parsed, beside, Picked::Failed(why)) matches Err(exit) && exit.out.len() == 0
            && exit.err == "pkgr: "@ + why@ + "\n"@ && exit.code == 1,
        chosen(m, parsed, beside, Picked::NotInteractive) matches Err(exit) && exit.out.len() == 0
            && exit.err == "pkgr: "@ + "pkgr needs an interactive terminal to choose a task"@
            + "\n"@ + listing(m, parsed, beside) && exit.code == 1,
{
}

/// A listing names the manifest, and one more task adds one more line at its
/// end: the task and the command that would run it.
pub proof fn listings_grow_by_a_line_per_task(
    m: manifest::ManifestView,
    parsed: json::grammar::ManifestView,
    beside: Seq<Seq<char>>,
    task: TaskView,
)
    ensures
        ({
            let more = json::grammar::ManifestView { tasks: parsed.tasks.push(task), ..parsed };
            let none = json::grammar::ManifestView { tasks: Seq::empty(), ..parsed };
            let verb = if m.kind == Kind::Deno {
                "task"@
            } else {
                "run"@
            };
            &&& listing(m, none, beside) == "\nTasks in "@ + m.path + ":\n"@
            &&& listing(m, more, beside) == listing(m, parsed, beside) + ("  "@ + text::padded(
                task.name,
                16,
            ) + " "@ + manifest::manager(m.kind, parsed.package_manager, beside) + " "@ + verb
                + " "@ + task.name + "\n"@)
        }),
{
    let more = json::grammar::ManifestView { tasks: parsed.tasks.push(task), ..parsed };
    let none = json::grammar::ManifestView { tasks: Seq::empty(), ..parsed };
    let front = "\nTasks in "@ + m.path + ":\n"@;
    let n = parsed.tasks.len();
    let tool = manifest::manager(m.kind, parsed.package_manager, beside);
    let verb = manifest::verb(m.kind);
    let padded = text::padded(task.name, 16);
    assert(front + Seq::<char>::empty() =~= front);
    assert(listed(m.kind, none, beside, 0) == Seq::<char>::empty());
    lemma_listed_alike(m.kind, more, parsed, beside, n);
    lemma_typed_out(m.kind, parsed.package_manager, beside, task.name);
    let line = "  "@ + padded + " "@ + tool + " "@ + verb + " "@ + task.name + "\n"@;
    assert(more.tasks[n as int] == task);
    assert(listed_task(m.kind, more, beside, n as int) =~= line);
    assert(front + (listed(m.kind, parsed, beside, n) + line) =~= front + listed(
        m.kind,
        parsed,
        beside,
        n,
    ) + line);
}

proof fn lemma_listed_alike(
    kind: Kind,
    more: json::grammar::ManifestView,
    parsed: json::grammar::ManifestView,
    beside: Seq<Seq<char>>,
    n: nat,
)
    requires
        more.package_manager == parsed.package_manager,
        n <= parsed.tasks.len() <= more.tasks.len(),
        forall|k: int| 0 <= k < n ==> more.tasks[k] == parsed.tasks[k],
    ensures
        listed(kind, more, beside, n) == listed(kind, parsed, beside, n),
    decreases n,
{
    if n > 0 {
        lemma_listed_alike(kind, more, parsed, beside, (n - 1) as nat);
    }
}

} // verus!
