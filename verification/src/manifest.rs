//! Locating a manifest and deciding which tool runs its tasks.

use vstd::prelude::*;
use vstd::string::*;

use crate::text;
use crate::text::{lists, same_text, to_folded};

verus! {

#[derive(Clone, Copy, PartialEq, Eq, Structural, Debug)]
pub enum Kind {
    Npm,
    Deno,
}

#[derive(Debug, PartialEq)]
pub struct Manifest {
    pub path: String,
    /// The directory the manifest is in.
    pub dir: String,
    pub kind: Kind,
}

/// Probed in order when the argument names a directory.
pub const CANDIDATES: [&'static str; 3] = ["package.json", "deno.json", "deno.jsonc"];

/// The lockfiles that tell a package manager, probed in order.
pub const LOCKFILES: [&'static str; 5] = [
    "pnpm-lock.yaml",
    "yarn.lock",
    "bun.lock",
    "bun.lockb",
    "package-lock.json",
];

#[derive(Debug, PartialEq)]
pub enum Error {
    NotFound(String),
    Unsupported(String),
    Io { path: String, msg: String },
}

/// What the command-line argument turned out to name.
#[derive(Debug, PartialEq)]
pub enum Start {
    /// Nothing that could be looked at, and why.
    Unreadable { path: String, msg: String },
    /// A directory, with the path of each of the [`CANDIDATES`] that is a file
    /// in it.
    Directory { path: String, found: [Option<String>; 3] },
    /// Anything else: its path, the directory it is in and its file name.
    File { path: String, dir: String, name: String },
}

// ---------------------------------------------------------------------------
// What is decided
// ---------------------------------------------------------------------------
/// What a located manifest is.
pub struct ManifestView {
    pub path: Seq<char>,
    pub dir: Seq<char>,
    pub kind: Kind,
}

/// What an error says.
pub enum ErrorView {
    NotFound(Seq<char>),
    Unsupported(Seq<char>),
    Io { path: Seq<char>, msg: Seq<char> },
}

impl View for Manifest {
    type V = ManifestView;

    open spec fn view(&self) -> ManifestView {
        ManifestView { path: self.path@, dir: self.dir@, kind: self.kind }
    }
}

impl View for Error {
    type V = ErrorView;

    open spec fn view(&self) -> ErrorView {
        match self {
            Error::NotFound(dir) => ErrorView::NotFound(dir@),
            Error::Unsupported(name) => ErrorView::Unsupported(name@),
            Error::Io { path, msg } => ErrorView::Io { path: path@, msg: msg@ },
        }
    }
}

/// A result with its manifest or its error taken for what it says.
pub open spec fn outcome(r: Result<Manifest, Error>) -> Result<ManifestView, ErrorView> {
    match r {
        Ok(m) => Ok(m@),
        Err(e) => Err(e@),
    }
}

/// How an error reads.
pub open spec fn message(e: ErrorView) -> Seq<char> {
    match e {
        ErrorView::NotFound(dir) => dir + ": no package.json, deno.json or deno.jsonc found"@,
        ErrorView::Unsupported(name) => name
            + " is not a supported manifest (want package.json, deno.json or deno.jsonc)"@,
        ErrorView::Io { path, msg } => "cannot read "@ + path + ": "@ + msg,
    }
}

/// The kind of manifest that goes by a file name.
pub open spec fn kind_named(base: Seq<char>) -> Option<Kind> {
    if base == "package.json"@ {
        Some(Kind::Npm)
    } else if base == "deno.json"@ || base == "deno.jsonc"@ {
        Some(Kind::Deno)
    } else {
        None
    }
}

/// The member of a manifest that holds the tasks.
pub open spec fn key(kind: Kind) -> Seq<char> {
    match kind {
        Kind::Npm => "scripts"@,
        Kind::Deno => "tasks"@,
    }
}

/// The first place, from `i` on, that holds something.
pub open spec fn first_found(found: Seq<Option<String>>, i: int) -> Option<int>
    decreases found.len() - i,
{
    if i >= found.len() {
        None
    } else if found[i] is Some {
        Some(i)
    } else {
        first_found(found, i + 1)
    }
}

/// The manifest that a start leads to.
pub open spec fn resolved(start: Start) -> Result<ManifestView, ErrorView> {
    match start {
        Start::Unreadable { path, msg } => Err(ErrorView::Io { path: path@, msg: msg@ }),
        Start::Directory { path, found } => match first_found(found@, 0) {
            None => Err(ErrorView::NotFound(path@)),
            Some(i) => Ok(
                ManifestView {
                    path: found@[i]->Some_0@,
                    dir: path@,
                    kind: if i == 0 {
                        Kind::Npm
                    } else {
                        Kind::Deno
                    },
                },
            ),
        },
        Start::File { path, dir, name } => match kind_named(name@) {
            Some(kind) => Ok(ManifestView { path: path@, dir: dir@, kind }),
            None => Err(ErrorView::Unsupported(name@)),
        },
    }
}

/// The part of a `packageManager` field in front of the version, in lower case.
pub open spec fn field_name(field: Seq<char>) -> Seq<char> {
    text::folded(text::before(field, '@'))
}

/// Whether a package manager goes by this name.
pub open spec fn is_manager(name: Seq<char>) -> bool {
    name == "npm"@ || name == "pnpm"@ || name == "yarn"@ || name == "bun"@
}

/// The package manager that the files beside a manifest tell.
pub open spec fn lockfile_manager(beside: Seq<Seq<char>>) -> Seq<char> {
    if beside.contains("pnpm-lock.yaml"@) {
        "pnpm"@
    } else if beside.contains("yarn.lock"@) {
        "yarn"@
    } else if beside.contains("bun.lock"@) || beside.contains("bun.lockb"@) {
        "bun"@
    } else {
        "npm"@
    }
}

/// The tool that runs a manifest's tasks.
pub open spec fn manager(kind: Kind, field: Seq<char>, beside: Seq<Seq<char>>) -> Seq<char> {
    if kind == Kind::Deno {
        "deno"@
    } else if is_manager(field_name(field)) {
        field_name(field)
    } else {
        lockfile_manager(beside)
    }
}

/// What stands between the tool and the task on the command line.
pub open spec fn verb(kind: Kind) -> Seq<char> {
    match kind {
        Kind::Npm => "run"@,
        Kind::Deno => "task"@,
    }
}

// ---------------------------------------------------------------------------
// What holds of it
// ---------------------------------------------------------------------------
/// Whatever the field and the lockfiles say, the tool is one that can be run:
/// deno for a Deno manifest, and one of the package managers otherwise.
pub proof fn tool_is_known(kind: Kind, field: Seq<char>, beside: Seq<Seq<char>>)
    ensures
        kind == Kind::Deno ==> manager(kind, field, beside) == "deno"@,
        kind == Kind::Npm ==> is_manager(manager(kind, field, beside)),
{
}

/// A field that names a package manager wins over any lockfile.
pub proof fn field_wins_over_lockfiles(field: Seq<char>, beside: Seq<Seq<char>>)
    requires
        is_manager(field_name(field)),
    ensures
        manager(Kind::Npm, field, beside) == field_name(field),
{
}

/// Of a field that names one, only the name counts: neither the version after
/// it nor the case it is written in.
pub proof fn version_and_case_do_not_matter(name: Seq<char>, version: Seq<char>)
    requires
        !name.contains('@'),
    ensures
        field_name(name + "@"@ + version) == text::folded(name),
        field_name(name) == text::folded(name),
{
    reveal_strlit("@");
    let field = name + "@"@ + version;
    field.index_of_first_ensures('@');
    name.index_of_first_ensures('@');
    assert(field[name.len() as int] == '@');
    assert(field.contains('@'));
    let i = field.index_of_first('@')->Some_0;
    if i < name.len() {
        assert(name[i] == field[i]);
        assert(name.contains('@'));
    }
    assert(field.take(i) =~= name);
}

/// Among the manifests in a directory the first of the candidates is used.
pub proof fn first_candidate_is_used(path: String, found: [Option<String>; 3])
    ensures
        resolved(Start::Directory { path, found }) == match (found@[0], found@[1], found@[2]) {
            (Some(file), _, _) => Ok(
                ManifestView { path: file@, dir: path@, kind: Kind::Npm },
            ),
            (None, Some(file), _) => Ok(
                ManifestView { path: file@, dir: path@, kind: Kind::Deno },
            ),
            (None, None, Some(file)) => Ok(
                ManifestView { path: file@, dir: path@, kind: Kind::Deno },
            ),
            (None, None, None) => Err(ErrorView::NotFound(path@)),
        },
{
    reveal_with_fuel(first_found, 4);
}

/// What a manifest and an error hold is all they hold.
pub proof fn views_leave_nothing_out(m: Manifest, e: Error)
    ensures
        m@.path == m.path@ && m@.dir == m.dir@ && m@.kind == m.kind,
        e matches Error::NotFound(dir) ==> e@ == ErrorView::NotFound(dir@),
        e matches Error::Unsupported(name) ==> e@ == ErrorView::Unsupported(name@),
        e matches Error::Io { path, msg } ==> e@ == (ErrorView::Io { path: path@, msg: msg@ }),
        outcome(Ok(m)) == Ok::<_, ErrorView>(m@),
        outcome(Err(e)) == Err::<ManifestView, _>(e@),
{
}

/// A file is a manifest just when it has the name of one, and of the kind that
/// goes by that name. Any other is refused by its name.
pub proof fn files_are_told_by_their_names(path: String, dir: String, name: String)
    ensures
        ({
            let r = resolved(Start::File { path, dir, name });
            &&& name@ == "package.json"@ ==> r == Ok::<_, ErrorView>(
                ManifestView { path: path@, dir: dir@, kind: Kind::Npm },
            )
            &&& name@ == "deno.json"@ || name@ == "deno.jsonc"@ ==> r == Ok::<_, ErrorView>(
                ManifestView { path: path@, dir: dir@, kind: Kind::Deno },
            )
            &&& name@ != "package.json"@ && name@ != "deno.json"@ && name@ != "deno.jsonc"@ ==> r
                == Err::<ManifestView, _>(ErrorView::Unsupported(name@))
        }),
{
    lemma_candidates();
}

/// What cannot be looked at is reported as it is.
pub proof fn unreadable_starts_say_why(path: String, msg: String)
    ensures
        resolved(Start::Unreadable { path, msg }) == Err::<ManifestView, _>(
            ErrorView::Io { path: path@, msg: msg@ },
        ),
{
}

/// The names by which the kinds of manifest are told, and no others.
pub proof fn kinds_go_by_their_names(base: Seq<char>)
    ensures
        kind_named(base) == Some(Kind::Npm) <==> base == "package.json"@,
        kind_named(base) == Some(Kind::Deno) <==> base == "deno.json"@ || base == "deno.jsonc"@,
        key(Kind::Npm) == "scripts"@ && key(Kind::Deno) == "tasks"@,
        verb(Kind::Npm) == "run"@ && verb(Kind::Deno) == "task"@,
{
    lemma_candidates();
}

/// A field that starts with the name of a package manager, in whatever case,
/// and has nothing or a version after it, decides. The lockfiles are not asked.
pub proof fn named_manager_is_used(
    name: Seq<char>,
    version: Seq<char>,
    beside: Seq<Seq<char>>,
)
    requires
        !name.contains('@'),
        ({
            let n = text::folded(name);
            n == "npm"@ || n == "pnpm"@ || n == "yarn"@ || n == "bun"@
        }),
    ensures
        manager(Kind::Npm, name, beside) == text::folded(name),
        manager(Kind::Npm, name + "@"@ + version, beside) == text::folded(name),
{
    version_and_case_do_not_matter(name, version);
}

/// Where the field names no package manager, the first lockfile of a fixed order
/// decides, whatever other files there are, and npm where there is none.
pub proof fn first_lockfile_decides(field: Seq<char>, beside: Seq<Seq<char>>)
    requires
        ({
            let n = text::folded(text::before(field, '@'));
            n != "npm"@ && n != "pnpm"@ && n != "yarn"@ && n != "bun"@
        }),
    ensures
        ({
            let tool = manager(Kind::Npm, field, beside);
            let pnpm = beside.contains("pnpm-lock.yaml"@);
            let yarn = beside.contains("yarn.lock"@);
            let bun = beside.contains("bun.lock"@) || beside.contains("bun.lockb"@);
            &&& pnpm ==> tool == "pnpm"@
            &&& !pnpm && yarn ==> tool == "yarn"@
            &&& !pnpm && !yarn && bun ==> tool == "bun"@
            &&& !pnpm && !yarn && !bun ==> tool == "npm"@
        }),
{
}

/// A Deno manifest is run by deno, whatever else is said or lies around.
pub proof fn deno_runs_its_own(
    field: Seq<char>,
    other: Seq<char>,
    beside: Seq<Seq<char>>,
    others: Seq<Seq<char>>,
)
    ensures
        manager(Kind::Deno, field, beside) == "deno"@,
        manager(Kind::Deno, field, beside) == manager(Kind::Deno, other, others),
{
}

/// Each error says what it is about, in its own words.
pub proof fn errors_say_what_they_are_about(about: Seq<char>, why: Seq<char>)
    ensures
        message(ErrorView::NotFound(about)) == about
            + ": no package.json, deno.json or deno.jsonc found"@,
        message(ErrorView::Unsupported(about)) == about
            + " is not a supported manifest (want package.json, deno.json or deno.jsonc)"@,
        message(ErrorView::Io { path: about, msg: why }) == "cannot read "@ + about + ": "@ + why,
{
}

/// The first candidate is an npm manifest, the others are Deno manifests.
proof fn lemma_candidates()
    ensures
        kind_named(CANDIDATES@[0]@) == Some(Kind::Npm),
        kind_named(CANDIDATES@[1]@) == Some(Kind::Deno),
        kind_named(CANDIDATES@[2]@) == Some(Kind::Deno),
{
    assert(CANDIDATES@[0]@ == "package.json"@);
    assert(CANDIDATES@[1]@ == "deno.json"@);
    assert(CANDIDATES@[2]@ == "deno.jsonc"@);
    reveal_strlit("package.json");
    reveal_strlit("deno.json");
    reveal_strlit("deno.jsonc");
    assert("package.json"@[0] == 'p');
    assert("deno.json"@[0] == 'd');
    assert("deno.jsonc"@[0] == 'd');
}

/// The lockfiles one by one.
proof fn lemma_lockfiles()
    ensures
        LOCKFILES@[0]@ == "pnpm-lock.yaml"@,
        LOCKFILES@[1]@ == "yarn.lock"@,
        LOCKFILES@[2]@ == "bun.lock"@,
        LOCKFILES@[3]@ == "bun.lockb"@,
        LOCKFILES@[4]@ == "package-lock.json"@,
{
}

/// No package manager goes by the name of deno.
proof fn lemma_deno_is_no_manager()
    ensures
        !is_manager("deno"@),
{
    reveal_strlit("deno");
    reveal_strlit("npm");
    reveal_strlit("pnpm");
    reveal_strlit("yarn");
    reveal_strlit("bun");
    assert("deno"@[0] == 'd');
    assert("pnpm"@[0] == 'p');
    assert("yarn"@[0] == 'y');
}

// ---------------------------------------------------------------------------
// Deciding it
// ---------------------------------------------------------------------------
impl Error {
    /// The message shown to the user.
    pub fn describe(&self) -> (r: String)
        ensures
            r@ == message(self@),
    {
        let mut out = String::new();
        match self {
            Error::NotFound(dir) => {
                out.append(dir.as_str());
                out.append(": no package.json, deno.json or deno.jsonc found");
            },
            Error::Unsupported(name) => {
                out.append(name.as_str());
                out.append(
                    " is not a supported manifest (want package.json, deno.json or deno.jsonc)",
                );
            },
            Error::Io { path, msg } => {
                out.append("cannot read ");
                out.append(path.as_str());
                out.append(": ");
                out.append(msg.as_str());
            },
        }
        out
    }
}

impl Manifest {
    /// The member of the manifest that holds the tasks.
    pub fn task_key(&self) -> (r: &'static str)
        ensures
            r@ == key(self.kind),
    {
        match self.kind {
            Kind::Npm => "scripts",
            Kind::Deno => "tasks",
        }
    }
}

/// Unrecognised file names are rejected rather than assumed to be Deno.
pub fn kind_of(base: &str) -> (r: Result<Kind, Error>)
    ensures
        match kind_named(base@) {
            Some(kind) => r == Ok::<_, Error>(kind),
            None => r matches Err(e) && e@ == ErrorView::Unsupported(base@),
        },
{
    if same_text(base, "package.json") {
        Ok(Kind::Npm)
    } else if same_text(base, "deno.json") || same_text(base, "deno.jsonc") {
        Ok(Kind::Deno)
    } else {
        Err(Error::Unsupported(base.to_owned()))
    }
}

/// Turns what a command-line argument names into a located manifest: the
/// first candidate in a directory, or a manifest file itself.
pub fn resolve(start: &Start) -> (r: Result<Manifest, Error>)
    ensures
        outcome(r) == resolved(*start),
{
    match start {
        Start::Unreadable { path, msg } => Err(Error::Io { path: path.clone(), msg: msg.clone() }),
        Start::Directory { path, found } => {
            let mut i: usize = 0;
            while i < 3
                invariant
                    i <= 3,
                    *start == (Start::Directory { path: *path, found: *found }),
                    first_found(found@, 0) == first_found(found@, i as int),
                decreases 3 - i,
            {
                if let Some(file) = &found[i] {
                    proof {
                        lemma_candidates();
                    }
                    return Ok(
                        Manifest {
                            path: file.clone(),
                            dir: path.clone(),
                            kind: kind_of(CANDIDATES[i])?,
                        },
                    );
                }
                i = i + 1;
            }
            Err(Error::NotFound(path.clone()))
        },
        Start::File { path, dir, name } => Ok(
            Manifest { path: path.clone(), dir: dir.clone(), kind: kind_of(name.as_str())? },
        ),
    }
}

/// Which tool runs this manifest's tasks. Deno manifests always use deno; for
/// package.json the `packageManager` field wins, then a lockfile, then npm.
///
/// `beside` holds the names of the files next to the manifest, as far as they
/// are among the [`LOCKFILES`].
pub fn package_manager(m: &Manifest, field: &str, beside: &Vec<String>) -> (r: String)
    ensures
        r@ == manager(m.kind, field@, text::texts(beside@)),
{
    if m.kind == Kind::Deno {
        return "deno".to_owned();
    }
    // An unrecognised name falls through to lockfile detection rather than
    // producing a command that cannot run.

    let name = to_folded(text::up_to(field, '@').as_str());
    if same_text(name.as_str(), "npm") || same_text(name.as_str(), "pnpm") || same_text(
        name.as_str(),
        "yarn",
    ) || same_text(name.as_str(), "bun") {
        return name;
    }
    proof {
        lemma_lockfiles();
    }
    let mut i: usize = 0;
    while i < 5
        invariant
            i <= 5,
            m.kind == Kind::Npm,
            !is_manager(field_name(field@)),
            forall|j: int|
                0 <= j < i ==> !text::texts(beside@).contains(#[trigger] LOCKFILES@[j]@),
        decreases 5 - i,
    {
        if lists(beside, LOCKFILES[i]) {
            proof {
                lemma_lockfiles();
            }
            let manager = match i {
                0 => "pnpm",
                1 => "yarn",
                2 | 3 => "bun",
                _ => "npm",
            };
            return manager.to_owned();
        }
        i = i + 1;
    }
    "npm".to_owned()
}

/// The argv that runs `task`, matching what the user would type by hand.
pub fn command(m: &Manifest, field: &str, beside: &Vec<String>, task: &str) -> (r: (
    String,
    Vec<String>,
))
    ensures
        r.0@ == manager(m.kind, field@, text::texts(beside@)),
        text::texts(r.1@) == seq![verb(m.kind), task@],
{
    let pm = package_manager(m, field, beside);
    let verb = if same_text(pm.as_str(), "deno") {
        "task"
    } else {
        "run"
    };
    proof {
        lemma_deno_is_no_manager();
    }
    let mut args: Vec<String> = Vec::new();
    args.push(verb.to_owned());
    args.push(task.to_owned());
    assert(text::texts(args@) =~= seq![self::verb(m.kind), task@]);
    (pm, args)
}

} // verus!
