//! What the functions of the library give back, in terms of what they are given.

use vstd::prelude::*;
use vstd::utf8::*;

use crate::cli;
use crate::cli::{Exit, Launch, Picked};
use crate::json;
use crate::json::grammar;
use crate::json::manifests;
use crate::json::writing;
use crate::json::writing::{Document, Entry, Field, Object, Value};
use crate::json::Task;
use crate::manifest;
use crate::manifest::{Kind, Manifest, Start};
use crate::run;
use crate::run::{Attempt, Rules};
use crate::text;
use crate::ui;
use crate::ui::drawing;
use crate::ui::frame;
use crate::ui::frame::Frame;
use crate::ui::laws;
use crate::ui::session::Prompt;
use crate::ui::unix;
use crate::ui::windows;
use crate::ui::{Console, Key};

verus! {

// ---------------------------------------------------------------------------
// Reading a manifest
// ---------------------------------------------------------------------------
/// Parsing gives each task of a manifest in its place, with its name; one that
/// is written as a text has that text for its command and no description.
pub proof fn parsing_gives_the_tasks(
    src: &str,
    task_key: &str,
    r: Result<json::Manifest, json::Error>,
    d: Document,
    j: int,
    o: Object<Entry>,
    k: int,
)
    requires
        call_ensures(json::parse, (src, task_key), r),
        manifests::is_written(src@, d, task_key@, j, o),
        0 <= k < o.members.len(),
        manifests::runnable(o.members[k]),
    ensures
        r matches Ok(m) && {
            let at = manifests::rank(o, k);
            &&& m.tasks@.len() == manifests::rank(o, o.members.len() as int)
            &&& 0 <= at < m.tasks@.len()
            &&& m.tasks@[at].name@ == writing::spelled(o.members[k].key)
            &&& o.members[k].value matches Entry::Plain(Value::Text(pieces))
                ==> m.tasks@[at].command@ == writing::spelled(pieces)
                && m.tasks@[at].description@.len() == 0
        },
{
    manifests::each_task_is_read_in_its_place(src@, d, task_key@, j, o, k);
    let m = r->Ok_0;
    let at = manifests::rank(o, k);
    assert(m@.tasks[at] == m.tasks@[at]@);
}

/// Parsing keeps the command that a task in object form declares, whatever
/// stands beside it.
pub proof fn parsing_keeps_declared_commands(
    src: &str,
    task_key: &str,
    r: Result<json::Manifest, json::Error>,
    d: Document,
    j: int,
    o: Object<Entry>,
    k: int,
    f: Object<Field>,
    c: int,
)
    requires
        call_ensures(json::parse, (src, task_key), r),
        manifests::is_written(src@, d, task_key@, j, o),
        0 <= k < o.members.len(),
        o.members[k].value == Entry::Form(f),
        manifests::last_text(f, c, "command"@),
        manifests::text_of(f.members[c]).len() > 0,
    ensures
        r matches Ok(m) && 0 <= manifests::rank(o, k) < m.tasks@.len() && m.tasks@[manifests::rank(
            o,
            k,
        )].command@ == manifests::text_of(f.members[c]),
{
    manifests::declared_command_is_kept(src@, d, task_key@, j, o, k, f, c);
    manifests::each_task_is_read_in_its_place(src@, d, task_key@, j, o, k);
    let m = r->Ok_0;
    let at = manifests::rank(o, k);
    assert(m@.tasks[at] == m.tasks@[at]@);
}

/// Parsing refuses what is no object, and says where.
pub proof fn parsing_refuses_what_is_no_object(
    src: &str,
    task_key: &str,
    r: Result<json::Manifest, json::Error>,
)
    requires
        call_ensures(json::parse, (src, task_key), r),
        ({
            let b = encode_utf8(src@);
            let j = grammar::trivia_end(b, 0);
            j < b.len() ==> b[j] != 0x7b
        }),
    ensures
        r matches Err(json::Error::Syntax { at, msg }) && at == grammar::trivia_end(
            encode_utf8(src@),
            0,
        ) && msg@ == "expected '{'"@,
{
    json::faults::manifests_must_be_objects(src@, task_key@);
}

/// An error of parsing reads as what is wrong and where.
pub proof fn parse_errors_are_described(e: json::Error, r: String)
    requires
        call_ensures(json::Error::describe, (&e,), r),
    ensures
        e matches json::Error::Syntax { at, msg } ==> r@ == msg@ + " at byte "@ + text::decimal(
            at as nat,
        ),
        e is NoTasks ==> r@ == "no scripts or tasks declared"@,
{
}

// ---------------------------------------------------------------------------
// Finding a manifest and its tool
// ---------------------------------------------------------------------------
/// A file is taken for a manifest by its name alone.
pub proof fn resolving_a_file_goes_by_its_name(
    path: String,
    dir: String,
    name: String,
    r: Result<Manifest, manifest::Error>,
)
    requires
        call_ensures(manifest::resolve, (&(Start::File { path, dir, name }),), r),
    ensures
        name@ == "package.json"@ ==> (r matches Ok(m) && m.path@ == path@ && m.dir@ == dir@
            && m.kind == Kind::Npm),
        name@ == "deno.json"@ || name@ == "deno.jsonc"@ ==> (r matches Ok(m) && m.path@ == path@
            && m.dir@ == dir@ && m.kind == Kind::Deno),
        name@ != "package.json"@ && name@ != "deno.json"@ && name@ != "deno.jsonc"@ ==> (
        r matches Err(manifest::Error::Unsupported(n)) && n@ == name@),
{
    manifest::files_are_told_by_their_names(path, dir, name);
}

/// In a directory the first candidate that is there is the manifest.
pub proof fn resolving_a_directory_takes_the_first_candidate(
    path: String,
    found: [Option<String>; 3],
    r: Result<Manifest, manifest::Error>,
)
    requires
        call_ensures(manifest::resolve, (&(Start::Directory { path, found }),), r),
    ensures
        match (found@[0], found@[1], found@[2]) {
            (Some(file), _, _) => r matches Ok(m) && m.path@ == file@ && m.dir@ == path@ && m.kind
                == Kind::Npm,
            (None, Some(file), _) => r matches Ok(m) && m.path@ == file@ && m.dir@ == path@
                && m.kind == Kind::Deno,
            (None, None, Some(file)) => r matches Ok(m) && m.path@ == file@ && m.dir@ == path@
                && m.kind == Kind::Deno,
            (None, None, None) => r matches Err(manifest::Error::NotFound(dir)) && dir@ == path@,
        },
{
    manifest::first_candidate_is_used(path, found);
}

/// A start that cannot be looked at is reported as it is.
pub proof fn resolving_nothing_says_why(
    path: String,
    msg: String,
    r: Result<Manifest, manifest::Error>,
)
    requires
        call_ensures(manifest::resolve, (&(Start::Unreadable { path, msg }),), r),
    ensures
        r matches Err(manifest::Error::Io { path: p, msg: m }) && p@ == path@ && m@ == msg@,
{
}

/// The names of manifests, and the member of each that holds the tasks.
pub proof fn manifests_have_their_names_and_keys(
    base: &str,
    m: Manifest,
    r: Result<Kind, manifest::Error>,
    key: &'static str,
)
    requires
        call_ensures(manifest::kind_of, (base,), r),
        call_ensures(Manifest::task_key, (&m,), key),
    ensures
        base@ == "package.json"@ ==> r == Ok::<_, manifest::Error>(Kind::Npm),
        base@ == "deno.json"@ || base@ == "deno.jsonc"@ ==> r == Ok::<_, manifest::Error>(
            Kind::Deno,
        ),
        base@ != "package.json"@ && base@ != "deno.json"@ && base@ != "deno.jsonc"@ ==> (
        r matches Err(manifest::Error::Unsupported(name)) && name@ == base@),
        key@ == if m.kind == Kind::Deno {
            "tasks"@
        } else {
            "scripts"@
        },
{
    manifest::kinds_go_by_their_names(base@);
}

/// An error of finding a manifest says what it is about.
pub proof fn manifest_errors_are_described(e: manifest::Error, r: String)
    requires
        call_ensures(manifest::Error::describe, (&e,), r),
    ensures
        e matches manifest::Error::NotFound(dir) ==> r@ == dir@
            + ": no package.json, deno.json or deno.jsonc found"@,
        e matches manifest::Error::Unsupported(name) ==> r@ == name@
            + " is not a supported manifest (want package.json, deno.json or deno.jsonc)"@,
        e matches manifest::Error::Io { path, msg } ==> r@ == "cannot read "@ + path@ + ": "@
            + msg@,
{
}

/// The tool is deno for a Deno manifest. Otherwise the field decides if it names
/// a package manager, then the first lockfile of a fixed order, then it is npm.
pub proof fn tools_are_told_by_field_and_lockfile(
    m: Manifest,
    field: &str,
    beside: Vec<String>,
    r: String,
)
    requires
        call_ensures(manifest::package_manager, (&m, field, &beside), r),
    ensures
        ({
            let named = text::folded(text::before(field@, '@'));
            let known = named == "npm"@ || named == "pnpm"@ || named == "yarn"@ || named == "bun"@;
            let files = text::texts(beside@);
            &&& m.kind == Kind::Deno ==> r@ == "deno"@
            &&& m.kind == Kind::Npm && known ==> r@ == named
            &&& m.kind == Kind::Npm && !known ==> r@ == if files.contains("pnpm-lock.yaml"@) {
                "pnpm"@
            } else if files.contains("yarn.lock"@) {
                "yarn"@
            } else if files.contains("bun.lock"@) || files.contains("bun.lockb"@) {
                "bun"@
            } else {
                "npm"@
            }
        }),
{
}

/// The arguments are what the tool calls running a task, and the task.
pub proof fn commands_run_the_task(
    m: Manifest,
    field: &str,
    beside: Vec<String>,
    task: &str,
    r: (String, Vec<String>),
    tool: String,
)
    requires
        call_ensures(manifest::command, (&m, field, &beside, task), r),
        call_ensures(manifest::package_manager, (&m, field, &beside), tool),
    ensures
        r.0@ == tool@,
        r.1@.len() == 2,
        r.1@[0]@ == if m.kind == Kind::Deno {
            "task"@
        } else {
            "run"@
        },
        r.1@[1]@ == task@,
{
    let args = r.1;
    let said = text::texts(args@);
    assert(said == seq![manifest::verb(m.kind), task@]);
    assert(said.len() == args@.len());
    assert(said[0] == args@[0]@ && said[1] == args@[1]@);
}

// ---------------------------------------------------------------------------
// Looking up and running the tool
// ---------------------------------------------------------------------------
/// The extensions of a `PATHEXT` are those between its semicolons that are not
/// empty, in lower case and in order. Without one they are those of programs
/// and batch files.
pub proof fn extensions_come_from_the_environment(parts: Seq<Seq<char>>, value: &str, r: Vec<String>)
    requires
        call_ensures(run::path_extensions, (Some(value),), r),
        parts.len() > 0,
        forall|i: int| 0 <= i < parts.len() ==> !(#[trigger] parts[i]).contains(';'),
        value@ == text::joined(parts, seq![';']),
    ensures
        text::texts(r@) == parts.filter(|ext: Seq<char>| ext.len() > 0).map_values(
            |ext: Seq<char>| text::folded(ext),
        ),
{
    run::every_extension_is_listed(parts);
}

/// Without a `PATHEXT` the extensions are those of a plain Windows.
pub proof fn extensions_have_a_default(value: &str, r: Vec<String>, given: Vec<String>)
    requires
        call_ensures(run::path_extensions, (None,), r),
        call_ensures(run::path_extensions, (Some(value),), given),
        value@ == ".COM;.EXE;.BAT;.CMD"@,
    ensures
        text::texts(r@) == text::texts(given@),
{
}

/// A name is taken for one that can be started just when it ends with one of
/// the extensions, in whatever case.
pub proof fn explicit_extensions_are_seen(bin: &str, extensions: Vec<String>, r: bool)
    requires
        call_ensures(run::has_executable_extension, (bin, &extensions), r),
    ensures
        r <==> exists|i: int|
            0 <= i < extensions@.len() && (#[trigger] extensions@[i])@.is_suffix_of(
                text::folded(bin@),
            ),
{
    let exts = text::texts(extensions@);
    if r {
        let i = choose|i: int|
            0 <= i < exts.len() && (#[trigger] exts[i]).is_suffix_of(text::folded(bin@));
        assert(extensions@[i]@ == exts[i]);
    }
    assert forall|i: int|
        0 <= i < extensions@.len() && (#[trigger] extensions@[i])@.is_suffix_of(
            text::folded(bin@),
        ) implies r by {
        assert(exts[i] == extensions@[i]@);
    }
}

/// The names that are tried on Windows are the name itself where it can be
/// started, and otherwise the name with each of the extensions, in order.
pub proof fn names_are_tried_with_every_extension(
    bin: &str,
    extensions: Vec<String>,
    explicit: bool,
    r: Vec<String>,
)
    requires
        call_ensures(run::file_names, (bin, &(Rules::Windows { extensions })), r),
        call_ensures(run::has_executable_extension, (bin, &extensions), explicit),
    ensures
        explicit ==> r@.len() == 1 && r@[0]@ == bin@,
        !explicit ==> r@.len() == extensions@.len() && forall|k: int|
            0 <= k < extensions@.len() ==> (#[trigger] r@[k])@ == bin@ + extensions@[k]@,
{
    run::every_extension_is_tried(bin@, extensions);
    explicit_extensions_are_seen(bin, extensions, explicit);
    let tried = run::tried_names(bin@, Rules::Windows { extensions });
    assert forall|k: int| 0 <= k < r@.len() implies (#[trigger] r@[k])@ == tried[k] by {
        assert(text::texts(r@)[k] == r@[k]@);
    }
}

/// What a lookup finds is there, and nothing that comes before it is: no name
/// in an earlier directory, and no earlier name in the same.
pub proof fn lookups_find_the_first_there_is<F: Fn(usize, &str) -> bool>(
    bin: &str,
    rules: Rules,
    dirs: usize,
    launchable: F,
    names: Vec<String>,
    r: (usize, String),
    d: usize,
    k: int,
)
    requires
        call_ensures(run::look_path::<F>, (bin, &rules, dirs, &launchable), Some(r)),
        call_ensures(run::file_names, (bin, &rules), names),
        0 <= k < names@.len(),
    ensures
        r.0 < dirs,
        run::answered(launchable, r.0, r.1@, true),
        d < r.0 ==> run::answered(launchable, d, names@[k]@, false),
        exists|n: int|
            0 <= n < names@.len() && (#[trigger] names@[n])@ == r.1@ && (k < n ==> run::answered(
                launchable,
                r.0,
                names@[k]@,
                false,
            )),
{
    let tried = run::tried_names(bin@, rules);
    assert(text::texts(names@) == tried);
    assert(names@.len() == tried.len());
    assert(tried[k] == names@[k]@);
    if d < r.0 {
        assert(run::nothing_in(launchable, d, tried, tried.len() as int));
    }
    let n = choose|n: int| #[trigger]
        run::first_in(launchable, r.0, tried, n) && r.1@ == tried[n];
    assert(tried[n] == names@[n]@);
}

/// Only a file can be launched, and where there are permission bits only one
/// that its owner, its group or others may execute.
pub proof fn files_need_an_execute_bit(is_file: bool, bits: u32, plain: bool, r: bool)
    requires
        call_ensures(run::launchable, (is_file, None), plain),
        call_ensures(run::launchable, (is_file, Some(bits)), r),
    ensures
        plain == is_file,
        r <==> is_file && (bits & 0o100 != 0 || bits & 0o010 != 0 || bits & 0o001 != 0),
{
    assert(bits & 0o111 != 0 <==> (bits & 0o100 != 0 || bits & 0o010 != 0 || bits & 0o001 != 0))
        by (bit_vector);
}

/// The exit code of a tool is passed on, a signal counts as an interrupt, and a
/// tool that did not run is reported by its name.
pub proof fn exit_codes_are_passed_on(bin: &str, attempt: Attempt, r: Result<i32, String>, e: Exit)
    requires
        call_ensures(run::run, (bin, &attempt), r),
        call_ensures(cli::finish, (bin, &attempt), e),
    ensures
        e.out@.len() == 0,
        match attempt {
            Attempt::Ended(Some(code)) => r == Ok::<_, String>(code) && e.code == code
                && e.err@.len() == 0,
            Attempt::Ended(None) => r == Ok::<_, String>(130i32) && e.code == 130 && e.err@.len()
                == 0,
            Attempt::Missing => (r matches Err(msg) && msg@ == bin@
                + " was not found on your PATH"@) && e.code == 1 && e.err@ == "pkgr: "@ + (bin@
                + " was not found on your PATH"@) + "\n"@,
            Attempt::NotStarted(why) => (r matches Err(msg) && msg@ == "cannot start "@ + bin@
                + ": "@ + why@) && e.code == 1 && e.err@ == "pkgr: "@ + ("cannot start "@ + bin@
                + ": "@ + why@) + "\n"@,
        },
{
}

// ---------------------------------------------------------------------------
// The program
// ---------------------------------------------------------------------------
/// Of the arguments, a flag decides before a path does.
pub proof fn arguments_are_read(args: Vec<String>, version: &str, r: Result<String, Exit>)
    requires
        call_ensures(cli::begin, (&args, version), r),
    ensures
        ({
            let given = text::texts(args@);
            let v = given.contains("-version"@) || given.contains("--version"@);
            let h = given.contains("-h"@) || given.contains("--help"@) || given.contains("-help"@);
            &&& v ==> (r matches Err(exit) && exit.code == 0 && exit.out@ == "pkgr "@ + version@
                + "\n"@ && exit.err@.len() == 0)
            &&& !v && h ==> (r matches Err(exit) && exit.code == 0 && exit.out@.len() == 0
                && exit.err@ == cli::USAGE@)
            &&& !v && !h && args@.len() > 1 ==> (r matches Err(exit) && exit.code == 1
                && exit.out@.len() == 0)
            &&& !v && !h && args@.len() == 1 ==> (r matches Ok(path) && path@ == args@[0]@)
            &&& !v && !h && args@.len() == 0 ==> (r matches Ok(path) && path@.len() == 0)
        }),
{
    assert(args@.len() > 0 ==> text::texts(args@)[0] == args@[0]@);
}

/// A manifest is located as it is resolved, and where it is not, the error is
/// reported in its own words.
pub proof fn locating_reports_errors(
    start: Start,
    found: Result<Manifest, manifest::Error>,
    msg: String,
    r: Result<Manifest, Exit>,
)
    requires
        call_ensures(cli::locate, (&start,), r),
        call_ensures(manifest::resolve, (&start,), found),
        found matches Err(e) ==> call_ensures(manifest::Error::describe, (&e,), msg),
    ensures
        match found {
            Ok(m) => r matches Ok(n) && n.path@ == m.path@ && n.dir@ == m.dir@ && n.kind == m.kind,
            Err(_) => r matches Err(exit) && exit.code == 1 && exit.out@.len() == 0 && exit.err@
                == "pkgr: "@ + msg@ + "\n"@,
        },
{
}

/// A manifest is loaded as it is parsed, for the tasks that its kind has, and
/// what is wrong is reported with its path.
pub proof fn loading_reports_errors(
    m: Manifest,
    src: String,
    text: &str,
    key: &str,
    parsed: Result<json::Manifest, json::Error>,
    msg: String,
    r: Result<json::Manifest, Exit>,
)
    requires
        call_ensures(cli::load, (&m, &Ok::<String, String>(src)), r),
        text@ == src@,
        key@ == if m.kind == Kind::Deno {
            "tasks"@
        } else {
            "scripts"@
        },
        call_ensures(json::parse, (text, key), parsed),
        parsed matches Err(e) ==> call_ensures(json::Error::describe, (&e,), msg),
    ensures
        match parsed {
            Ok(p) => r matches Ok(q) && q@ == p@,
            Err(_) => r matches Err(exit) && exit.code == 1 && exit.out@.len() == 0 && exit.err@
                == "pkgr: "@ + (m.path@ + ": "@ + msg@) + "\n"@,
        },
{
}

/// A manifest that cannot be read is reported with its path and the reason.
pub proof fn loading_reports_unreadable_files(
    m: Manifest,
    why: String,
    r: Result<json::Manifest, Exit>,
)
    requires
        call_ensures(cli::load, (&m, &Err::<String, String>(why)), r),
    ensures
        r matches Err(exit) && exit.code == 1 && exit.out@.len() == 0 && exit.err@ == "pkgr: "@ + (
        "cannot read "@ + m.path@ + ": "@ + why@) + "\n"@,
{
}

/// The title names the path that is shown: the one relative to the current
/// directory where there is one, and the whole path otherwise.
pub proof fn titles_name_the_path(rel: &str, path: &str, near: String, far: String, t: String)
    requires
        call_ensures(cli::display_path, (Some(rel), path), near),
        call_ensures(cli::display_path, (None, path), far),
        call_ensures(cli::title, (path,), t),
    ensures
        near@ == rel@,
        far@ == path@,
        t@ == "Select a task  ("@ + path@ + ")"@,
{
}

/// The task at the index that was chosen is the one that runs: it is the last
/// argument, and the echo is the command that runs, with the task at its end.
pub proof fn choosing_runs_the_task_at_the_index(
    m: Manifest,
    parsed: json::Manifest,
    beside: Vec<String>,
    index: usize,
    r: Result<Launch, Exit>,
)
    requires
        index < parsed.tasks@.len(),
        call_ensures(cli::choose_command, (&m, &parsed, &beside, &Picked::Chosen(index)), r),
    ensures
        r matches Ok(launch) && {
            &&& launch.args@.len() == 2
            &&& launch.args@[0]@ == if m.kind == Kind::Deno {
                "task"@
            } else {
                "run"@
            }
            &&& launch.args@[1]@ == parsed.tasks@[index as int].name@
            &&& launch.bin@ == manifest::manager(
                m.kind,
                parsed.package_manager@,
                text::texts(beside@),
            )
            &&& launch.echo@ == "\n> "@ + launch.bin@ + " "@ + launch.args@[0]@ + " "@
                + launch.args@[1]@ + "\n\n"@
        },
{
    cli::chosen_task_is_the_one_that_runs(m@, parsed@, text::texts(beside@), index);
    let launch = r->Ok_0;
    assert(parsed@.tasks[index as int] == parsed.tasks@[index as int]@);
    assert(text::texts(launch.args@)[0] == launch.args@[0]@);
    assert(text::texts(launch.args@)[1] == launch.args@[1]@);
}

/// Without a choice nothing runs. Cancelling ends quietly, a failure says what
/// failed, and without a terminal the tasks are listed.
pub proof fn not_choosing_runs_nothing(
    m: Manifest,
    parsed: json::Manifest,
    beside: Vec<String>,
    why: String,
    list: String,
    cancelled: Result<Launch, Exit>,
    failed: Result<Launch, Exit>,
    blind: Result<Launch, Exit>,
)
    requires
        call_ensures(
            cli::choose_command,
            (&m, &parsed, &beside, &Picked::Cancelled),
            cancelled,
        ),
        call_ensures(
            cli::choose_command,
            (&m, &parsed, &beside, &Picked::Failed(why)),
            failed,
        ),
        call_ensures(
            cli::choose_command,
            (&m, &parsed, &beside, &Picked::NotInteractive),
            blind,
        ),
        call_ensures(cli::list_tasks, (&m, &parsed, &beside), list),
    ensures
        cancelled matches Err(exit) && exit.code == 130 && exit.out@.len() == 0 && exit.err@.len()
            == 0,
        failed matches Err(exit) && exit.code == 1 && exit.out@.len() == 0 && exit.err@
            == "pkgr: "@ + why@ + "\n"@,
        blind matches Err(exit) && exit.code == 1 && exit.out@.len() == 0 && exit.err@
            == "pkgr: "@ + "pkgr needs an interactive terminal to choose a task"@ + "\n"@ + list@,
{
}

/// A listing names the manifest and has a line for each task, in order, with
/// the command that runs it: one task more adds one line.
pub proof fn listings_have_a_line_per_task(
    m: Manifest,
    fewer: json::Manifest,
    parsed: json::Manifest,
    beside: Vec<String>,
    short: String,
    long: String,
)
    requires
        call_ensures(cli::list_tasks, (&m, &fewer, &beside), short),
        call_ensures(cli::list_tasks, (&m, &parsed, &beside), long),
        parsed.tasks@.len() > 0,
        fewer.tasks@ == parsed.tasks@.drop_last(),
        fewer.package_manager@ == parsed.package_manager@,
    ensures
        ({
            let name = parsed.tasks@.last().name@;
            let tool = manifest::manager(
                m.kind,
                parsed.package_manager@,
                text::texts(beside@),
            );
            long@ == short@ + ("  "@ + text::padded(name, 16) + " "@ + tool + " "@ + (if m.kind
                == Kind::Deno {
                "task"@
            } else {
                "run"@
            }) + " "@ + name + "\n"@)
        }),
        fewer.tasks@.len() == 0 ==> short@ == "\nTasks in "@ + m.path@ + ":\n"@,
{
    let last = parsed.tasks@.last();
    assert(parsed@.tasks =~= fewer@.tasks.push(last@));
    if fewer.tasks@.len() == 0 {
        assert(fewer@.tasks =~= Seq::empty());
    }
    cli::listings_grow_by_a_line_per_task(m@, fewer@, text::texts(beside@), last@);
}

// ---------------------------------------------------------------------------
// The picker
// ---------------------------------------------------------------------------
/// One text is found in another just when the other holds it, up to ASCII case.
pub proof fn texts_are_found_in_any_case(h: &str, f: &str, r: bool)
    requires
        call_ensures(ui::contains_ignore_ascii_case, (h, f), r),
    ensures
        r <==> exists|head: Seq<char>, tail: Seq<char>|
            text::folded(h@) == #[trigger] (head + text::folded(f@) + tail),
{
    laws::found_texts_stand_there(h@, f@);
}

/// Matching gives the positions of the tasks whose name or command holds the
/// filter, up to ASCII case, all of them and in order.
pub proof fn matching_gives_what_holds_the_filter(tasks: &[Task], f: &str, r: Vec<usize>, i: usize)
    requires
        call_ensures(ui::matching, (tasks, f), r),
        tasks@.len() <= usize::MAX,
    ensures
        r@.contains(i) <==> i < tasks@.len() && exists|head: Seq<char>, tail: Seq<char>|
            {
                ||| text::folded(tasks@[i as int].name@) == #[trigger] (head + text::folded(f@)
                    + tail)
                ||| text::folded(tasks@[i as int].command@) == head + text::folded(f@) + tail
            },
        forall|a: int, b: int| 0 <= a < b < r@.len() ==> #[trigger] r@[a] < #[trigger] r@[b],
{
    let views = json::task_views(tasks@);
    laws::filter_shows_what_passes(views, f@);
    if i < tasks@.len() {
        let t = tasks@[i as int]@;
        assert(views[i as int] == t);
        laws::found_texts_stand_there(t.name, f@);
        laws::found_texts_stand_there(t.command, f@);
        let needle = text::folded(f@);
        if exists|head: Seq<char>, tail: Seq<char>|
            {
                ||| text::folded(t.name) == #[trigger] (head + needle + tail)
                ||| text::folded(t.command) == head + needle + tail
            } {
            let (head, tail) = choose|head: Seq<char>, tail: Seq<char>|
                {
                    ||| text::folded(t.name) == #[trigger] (head + needle + tail)
                    ||| text::folded(t.command) == head + needle + tail
                };
            laws::name_or_command_is_enough(views, f@, i, head, tail);
        }
        if r@.contains(i) {
            laws::nothing_else_is_shown(views, f@, i);
        }
    }
}

/// With no tasks there is nothing to select. Otherwise a console that cannot be
/// had is reported as it is, and one that can runs the picker on all the tasks,
/// under the title.
pub proof fn selecting_runs_the_picker<C: Console, F: FnOnce() -> Result<C, ui::Error>>(
    title: &str,
    tasks: &[Task],
    acquire: F,
    r: Result<usize, ui::Error>,
)
    requires
        call_ensures(ui::select::<C, F>, (title, tasks, acquire), r),
    ensures
        tasks@.len() == 0 ==> r matches Err(ui::Error::Cancelled),
        tasks@.len() > 0 ==> exists|acquired: Result<C, ui::Error>| #[trigger]
            acquire.ensures((), acquired) && match acquired {
                Err(e) => r == Err::<usize, _>(e),
                Ok(term) => exists|after: C, width: usize|
                    #![trigger call_ensures(C::width, (&term,), width), after.log()]
                    call_ensures(C::width, (&term,), width) && ui::picked(
                        term,
                        after,
                        Prompt {
                            title: title@,
                            tasks: json::task_views(tasks@),
                            width: width as int,
                        },
                        r,
                    ),
            },
{
}

/// A label is the row of its task: the name, then what there is besides, cut
/// off with an ellipsis where it would not fit.
pub proof fn labels_fit_the_terminal(t: Task, pad: usize, width: usize, r: String)
    requires
        call_ensures(ui::label, (&t, pad, width), r),
    ensures
        ({
            let name = text::padded(t.name@, pad as int) + "  "@;
            let full = if t.command@.len() == 0 && t.description@.len() == 0 {
                t.name@
            } else if t.description@.len() == 0 {
                name + t.command@
            } else if t.command@.len() == 0 {
                name + t.description@
            } else {
                name + t.command@ + "  ("@ + t.description@ + ")"@
            };
            r@ == if width > 5 && full.len() > width - 4 {
                full.take(width - 5).push('…')
            } else {
                full
            }
        }),
{
    drawing::rows_hold_what_there_is(t@, pad as int);
}

/// Rendering gives the frame and how many lines it takes up.
pub proof fn rendering_counts_its_lines(v: Frame<'_>, r: (String, usize))
    requires
        call_ensures(frame::render, (&v,), r),
    ensures
        r.0@ == frame::frame_text(v@),
        r.1 == text::height(r.0@),
{
    laws::frames_take_up_their_lines(v@);
}

/// What erases a frame goes up over its lines and wipes them; no lines need no
/// erasing.
pub proof fn wiping_goes_up_and_erases(lines: usize, r: String)
    requires
        call_ensures(frame::wipe, (lines,), r),
    ensures
        lines > 0 ==> r@ == "\x1b["@ + text::decimal(lines as nat) + "A"@ + "\x1b[0J"@,
        lines == 0 ==> r@.len() == 0,
{
}

/// A terminal that reports no width is taken to have eighty columns.
pub proof fn widths_have_a_default(n: usize, given: usize, none: usize)
    requires
        call_ensures(frame::columns, (Some(n),), given),
        call_ensures(frame::columns, (None,), none),
    ensures
        none == 80,
        given == if n > 0 {
            n
        } else {
            80
        },
{
}

// ---------------------------------------------------------------------------
// Keys
// ---------------------------------------------------------------------------
/// A Windows key event means what the table of keys says, and only the press of
/// a key means anything. A read that gives nothing cancels.
pub proof fn windows_events_are_decoded(
    is_key: bool,
    is_down: bool,
    virtual_key: u16,
    unicode_char: u16,
    key: Key,
    record: Option<Key>,
    next: Option<Result<Key, ui::Error>>,
    none: Option<Result<Key, ui::Error>>,
)
    requires
        call_ensures(windows::decode_key, (virtual_key, unicode_char), key),
        call_ensures(windows::record_key, (is_key, is_down, virtual_key, unicode_char), record),
        call_ensures(
            windows::next_key,
            (Some((is_key, is_down, virtual_key, unicode_char)),),
            next,
        ),
        call_ensures(windows::next_key, (None,), none),
    ensures
        key == windows::event_key(virtual_key, unicode_char),
        is_key && is_down ==> record == Some(key) && next == Some(Ok::<_, ui::Error>(key)),
        !(is_key && is_down) ==> record is None && next is None,
        none matches Some(Err(ui::Error::Cancelled)),
{
}

/// The last byte and the number of a unix sequence mean what the table of
/// sequences says.
pub proof fn unix_sequences_are_decoded(last: u8, number: u16, key: Key)
    requires
        call_ensures(unix::final_key, (last, number), key),
    ensures
        key == match last {
            0x41u8 => Key::Up,
            0x42u8 => Key::Down,
            0x46u8 => Key::End,
            0x48u8 => Key::Home,
            0x7eu8 => if number == 1 || number == 5 || number == 7 {
                Key::Home
            } else if number == 4 || number == 6 || number == 8 {
                Key::End
            } else {
                Key::Ignored
            },
            _ => Key::Ignored,
        },
{
}

} // verus!
