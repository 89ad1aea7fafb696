//! Finding the tool that runs the chosen task, and what its end comes to.

use vstd::prelude::*;
use vstd::string::*;

use crate::text;
use crate::text::{ends_with, to_folded};

verus! {

/// What is launched by name on a platform.
#[derive(Debug, PartialEq)]
pub enum Rules {
    /// The name is used exactly as given; there are no implicit extensions.
    Unix,
    /// Only a file with one of these extensions can be started.
    Windows { extensions: Vec<String> },
}

/// What became of an attempt to run a tool.
#[derive(Debug, PartialEq)]
pub enum Attempt {
    /// It was not found.
    Missing,
    /// It could not be started, and why.
    NotStarted(String),
    /// It ran and left this exit code, or none if a signal ended it.
    Ended(Option<i32>),
}

/// The exit code of a command interrupted at the terminal.
pub const INTERRUPTED: i32 = 130;

// ---------------------------------------------------------------------------
// Extensions
// ---------------------------------------------------------------------------
/// The pieces that are not empty, in lower case.
pub open spec fn named_pieces(pieces: Seq<Seq<char>>) -> Seq<Seq<char>>
    decreases pieces.len(),
{
    if pieces.len() == 0 {
        Seq::empty()
    } else {
        let before = named_pieces(pieces.drop_last());
        if pieces.last().len() == 0 {
            before
        } else {
            before.push(text::folded(pieces.last()))
        }
    }
}

/// The extensions that a `PATHEXT` value lists.
pub open spec fn listed_extensions(pathext: Seq<char>) -> Seq<Seq<char>> {
    named_pieces(text::pieces(pathext, ';'))
}

proof fn lemma_fold_twice(s: Seq<char>)
    ensures
        text::folded(text::folded(s)) == text::folded(s),
{
    assert(text::folded(text::folded(s)) =~= text::folded(s));
}

/// Whether an extension is there, and in lower case.
pub open spec fn lower_case(ext: Seq<char>) -> bool {
    ext.len() > 0 && text::folded(ext) == ext
}

proof fn lemma_named_pieces(pieces: Seq<Seq<char>>)
    ensures
        forall|k: int|
            0 <= k < named_pieces(pieces).len() ==> lower_case(#[trigger] named_pieces(pieces)[k]),
    decreases pieces.len(),
{
    if pieces.len() > 0 {
        lemma_named_pieces(pieces.drop_last());
        lemma_fold_twice(pieces.last());
        let before = named_pieces(pieces.drop_last());
        assert forall|k: int| 0 <= k < named_pieces(pieces).len() implies lower_case(
            #[trigger] named_pieces(pieces)[k],
        ) by {
            if k < before.len() {
                assert(named_pieces(pieces)[k] == before[k]);
            }
        }
    }
}

/// The extensions that a `PATHEXT` value lists are in lower case, and none of
/// them is empty.
pub proof fn extensions_are_lower_case(pathext: Seq<char>)
    ensures
        forall|k: int|
            0 <= k < listed_extensions(pathext).len() ==> lower_case(
                #[trigger] listed_extensions(pathext)[k],
            ),
{
    lemma_named_pieces(text::pieces(pathext, ';'));
}

proof fn lemma_named_are_filtered(pieces: Seq<Seq<char>>)
    ensures
        named_pieces(pieces) == pieces.filter(|ext: Seq<char>| ext.len() > 0).map_values(
            |ext: Seq<char>| text::folded(ext),
        ),
    decreases pieces.len(),
{
    reveal(Seq::filter);
    let there = |ext: Seq<char>| ext.len() > 0;
    let fold = |ext: Seq<char>| text::folded(ext);
    if pieces.len() > 0 {
        lemma_named_are_filtered(pieces.drop_last());
        let before = pieces.drop_last().filter(there);
        if pieces.last().len() > 0 {
            assert(pieces.filter(there) == before.push(pieces.last()));
            assert(before.push(pieces.last()).map_values(fold) =~= before.map_values(fold).push(
                text::folded(pieces.last()),
            ));
        } else {
            assert(pieces.filter(there) == before);
        }
    }
    assert(named_pieces(pieces) =~= pieces.filter(there).map_values(fold));
}

/// A `PATHEXT` that is made up of some extensions lists just those, all of them
/// and in that order, in lower case; only empty ones are left out.
pub proof fn every_extension_is_listed(parts: Seq<Seq<char>>)
    requires
        parts.len() > 0,
        forall|i: int| 0 <= i < parts.len() ==> !(#[trigger] parts[i]).contains(';'),
    ensures
        listed_extensions(text::joined(parts, seq![';'])) == parts.filter(
            |ext: Seq<char>| ext.len() > 0,
        ).map_values(|ext: Seq<char>| text::folded(ext)),
{
    text::joined_texts_come_back_as_pieces(parts, ';');
    lemma_named_are_filtered(parts);
}

/// The launchable extensions, from the value of `PATHEXT` where there is one.
pub fn path_extensions(pathext: Option<&str>) -> (r: Vec<String>)
    ensures
        text::texts(r@) == listed_extensions(
            match pathext {
                Some(value) => value@,
                None => ".COM;.EXE;.BAT;.CMD"@,
            },
        ),
{
    let value = match pathext {
        Some(value) => value,
        None => ".COM;.EXE;.BAT;.CMD",
    };
    let mut out: Vec<String> = Vec::new();
    let mut piece = String::new();
    let ghost all = value@;
    assert(all.take(0) =~= Seq::<char>::empty());
    assert(text::texts(out@) =~= Seq::<Seq<char>>::empty());
    assert(text::pieces(all.take(0), ';').drop_last() =~= Seq::<Seq<char>>::empty());
    for c in it: value.chars()
        invariant
            it.seq() == all,
            piece@ == text::pieces(all.take(it.index() as int), ';').last(),
            text::texts(out@) == named_pieces(
                text::pieces(all.take(it.index() as int), ';').drop_last(),
            ),
    {
        let ghost before = text::pieces(all.take(it.index() as int), ';');
        let ghost now = text::pieces(all.take(it.index() + 1), ';');
        proof {
            text::lemma_pieces_some(all.take(it.index() as int), ';');
            assert(all.take(it.index() + 1).drop_last() =~= all.take(it.index() as int));
        }
        if c == ';' {
            assert(now.drop_last() =~= before);
            if !piece.as_str().is_empty() {
                let ghost kept = out@;
                out.push(to_folded(piece.as_str()));
                assert(text::texts(out@) =~= text::texts(kept).push(text::folded(piece@)));
            }
            piece = String::new();
        } else {
            piece.push(c);
            assert(now.drop_last() =~= before.drop_last());
        }
    }
    assert(all.take(all.len() as int) =~= all);
    proof {
        text::lemma_pieces_some(all, ';');
    }
    if !piece.as_str().is_empty() {
        let ghost kept = out@;
        out.push(to_folded(piece.as_str()));
        assert(text::texts(out@) =~= text::texts(kept).push(text::folded(piece@)));
    }
    out
}

/// Whether a name ends with one of the extensions, up to ASCII case.
pub open spec fn has_extension(bin: Seq<char>, extensions: Seq<Seq<char>>) -> bool {
    exists|i: int|
        0 <= i < extensions.len() && (#[trigger] extensions[i]).is_suffix_of(text::folded(bin))
}

pub fn has_executable_extension(bin: &str, extensions: &Vec<String>) -> (r: bool)
    ensures
        r == has_extension(bin@, text::texts(extensions@)),
{
    let lower = to_folded(bin);
    let mut i: usize = 0;
    while i < extensions.len()
        invariant
            i <= extensions@.len(),
            lower@ == text::folded(bin@),
            forall|j: int| 0 <= j < i ==> !extensions@[j]@.is_suffix_of(lower@),
        decreases extensions@.len() - i,
    {
        if ends_with(lower.as_str(), extensions[i].as_str()) {
            assert(text::texts(extensions@)[i as int].is_suffix_of(text::folded(bin@)));
            return true;
        }
        i = i + 1;
    }
    false
}

// ---------------------------------------------------------------------------
// Looking for a tool
// ---------------------------------------------------------------------------
/// The file names that stand for a tool, in the order they are tried.
///
/// On Windows an extensionless file of the same name is common and must be
/// ignored: npm ships a shell script called `npm` right next to `npm.cmd`. Only
/// an explicit extension on the name itself is taken as given.
pub open spec fn tried_names(bin: Seq<char>, rules: Rules) -> Seq<Seq<char>> {
    match rules {
        Rules::Unix => seq![bin],
        Rules::Windows { extensions } => if has_extension(bin, text::texts(extensions@)) {
            seq![bin]
        } else {
            text::texts(extensions@).map_values(|ext: Seq<char>| bin + ext)
        },
    }
}

/// On Windows every name that is tried has an extension with which it can be
/// started, so that a bare shell script is never mistaken for the tool.
pub proof fn windows_tries_launchable_names(bin: Seq<char>, extensions: Vec<String>)
    requires
        forall|k: int|
            0 <= k < extensions@.len() ==> text::folded((#[trigger] extensions@[k])@)
                == extensions@[k]@,
    ensures
        forall|k: int|
            0 <= k < tried_names(bin, Rules::Windows { extensions }).len() ==> has_extension(
                #[trigger] tried_names(bin, Rules::Windows { extensions })[k],
                text::texts(extensions@),
            ),
{
    let tried = tried_names(bin, Rules::Windows { extensions });
    let exts = text::texts(extensions@);
    if !has_extension(bin, exts) {
        assert forall|k: int| 0 <= k < tried.len() implies has_extension(
            #[trigger] tried[k],
            exts,
        ) by {
            let ext = exts[k];
            assert(ext == extensions@[k]@);
            assert(text::folded(bin + ext) =~= text::folded(bin) + ext);
            assert(ext.is_suffix_of(text::folded(bin) + ext));
        }
    }
}

/// A name has a launchable extension just when it ends with one of them, in
/// whatever case.
pub proof fn extensions_are_at_the_end(bin: Seq<char>, extensions: Seq<Seq<char>>)
    ensures
        has_extension(bin, extensions) <==> exists|i: int, front: Seq<char>|
            0 <= i < extensions.len() && text::folded(bin) == #[trigger] (front + extensions[i]),
{
    let low = text::folded(bin);
    if has_extension(bin, extensions) {
        let i = choose|i: int|
            0 <= i < extensions.len() && (#[trigger] extensions[i]).is_suffix_of(low);
        let front = low.take(low.len() - extensions[i].len());
        assert(low =~= front + extensions[i]);
    }
    if exists|i: int, front: Seq<char>|
        0 <= i < extensions.len() && low == #[trigger] (front + extensions[i]) {
        let (i, front): (int, Seq<char>) = choose|i: int, front: Seq<char>|
            0 <= i < extensions.len() && low == #[trigger] (front + extensions[i]);
        assert(extensions[i].is_suffix_of(low));
    }
}

/// On Windows a name that can be started as it is, is tried as it is. Any other
/// is tried with each of the extensions, all of them and in their order.
pub proof fn every_extension_is_tried(bin: Seq<char>, extensions: Vec<String>)
    ensures
        ({
            let tried = tried_names(bin, Rules::Windows { extensions });
            let explicit = exists|i: int|
                0 <= i < extensions@.len() && (#[trigger] extensions@[i])@.is_suffix_of(
                    text::folded(bin),
                );
            &&& explicit ==> tried.len() == 1 && tried[0] == bin
            &&& !explicit ==> tried.len() == extensions@.len() && forall|k: int|
                0 <= k < extensions@.len() ==> #[trigger] tried[k] == bin + extensions@[k]@
        }),
{
    let exts = text::texts(extensions@);
    if has_extension(bin, exts) {
        let i = choose|i: int|
            0 <= i < exts.len() && (#[trigger] exts[i]).is_suffix_of(text::folded(bin));
        assert(extensions@[i]@ == exts[i]);
    }
    assert forall|i: int|
        0 <= i < extensions@.len() && (#[trigger] extensions@[i])@.is_suffix_of(
            text::folded(bin),
        ) implies has_extension(bin, exts) by {
        assert(exts[i] == extensions@[i]@);
    }
}

/// On unix a tool goes by its name and nothing else.
pub proof fn unix_tries_the_name_itself(bin: Seq<char>)
    ensures
        tried_names(bin, Rules::Unix).len() == 1,
        tried_names(bin, Rules::Unix)[0] == bin,
{
}

/// The file names that stand for a tool, in the order they are tried.
pub fn file_names(bin: &str, rules: &Rules) -> (r: Vec<String>)
    ensures
        text::texts(r@) == tried_names(bin@, *rules),
{
    let mut out: Vec<String> = Vec::new();
    match rules {
        Rules::Unix => {
            out.push(bin.to_owned());
            assert(text::texts(out@) =~= seq![bin@]);
        },
        Rules::Windows { extensions } => {
            if has_executable_extension(bin, extensions) {
                out.push(bin.to_owned());
                assert(text::texts(out@) =~= seq![bin@]);
                return out;
            }
            let mut i: usize = 0;
            while i < extensions.len()
                invariant
                    i <= extensions@.len(),
                    out@.len() == i,
                    forall|j: int| 0 <= j < i ==> (#[trigger] out@[j])@ == bin@ + extensions@[j]@,
                decreases extensions@.len() - i,
            {
                let mut name = bin.to_owned();
                name.append(extensions[i].as_str());
                out.push(name);
                i = i + 1;
            }
            assert(text::texts(out@) =~= text::texts(extensions@).map_values(
                |ext: Seq<char>| bin@ + ext,
            ));
        },
    }
    out
}

/// Whether `launchable` may give this answer about a name in a directory.
pub open spec fn answered<F: Fn(usize, &str) -> bool>(
    launchable: F,
    dir: usize,
    name: Seq<char>,
    answer: bool,
) -> bool {
    exists|asked: &str| #[trigger] asked@ == name && launchable.ensures((dir, asked), answer)
}

/// Whether a directory has nothing to launch under the first `n` of the names.
pub open spec fn nothing_in<F: Fn(usize, &str) -> bool>(
    launchable: F,
    dir: usize,
    names: Seq<Seq<char>>,
    n: int,
) -> bool {
    forall|j: int| 0 <= j < n ==> answered(launchable, dir, #[trigger] names[j], false)
}

/// Whether the name at `k` is the first under which a directory has something
/// to launch.
pub open spec fn first_in<F: Fn(usize, &str) -> bool>(
    launchable: F,
    dir: usize,
    names: Seq<Seq<char>>,
    k: int,
) -> bool {
    &&& 0 <= k < names.len()
    &&& answered(launchable, dir, names[k], true)
    &&& nothing_in(launchable, dir, names, k)
}

/// What the answers that a lookup went by mean: each was given about that very
/// name in that very directory, no name before the one that was found is there,
/// and where none was found no name is there.
pub proof fn answers_are_about_what_was_asked<F: Fn(usize, &str) -> bool>(
    launchable: F,
    dir: usize,
    name: Seq<char>,
    answer: bool,
    names: Seq<Seq<char>>,
    n: int,
    k: int,
)
    ensures
        answered(launchable, dir, name, answer) <==> exists|asked: &str|
            launchable.ensures((dir, asked), answer) && #[trigger] asked@ == name,
        nothing_in(launchable, dir, names, n) && 0 <= k < n ==> answered(
            launchable,
            dir,
            names[k],
            false,
        ),
        first_in(launchable, dir, names, n) ==> 0 <= n < names.len() && answered(
            launchable,
            dir,
            names[n],
            true,
        ) && (0 <= k < n ==> answered(launchable, dir, names[k], false)),
{
}

/// The place of the first of the names under which a directory has something
/// to launch. `launchable` tells whether it does.
pub fn look_in<F: Fn(usize, &str) -> bool>(
    dir: usize,
    names: &Vec<String>,
    launchable: &F,
) -> (r: Option<usize>)
    requires
        forall|name: &str| launchable.requires((dir, name)),
    ensures
        match r {
            Some(k) => first_in(*launchable, dir, text::texts(names@), k as int),
            None => nothing_in(*launchable, dir, text::texts(names@), names@.len() as int),
        },
{
    let mut i: usize = 0;
    while i < names.len()
        invariant
            i <= names@.len(),
            forall|name: &str| launchable.requires((dir, name)),
            nothing_in(*launchable, dir, text::texts(names@), i as int),
        decreases names@.len() - i,
    {
        let name = names[i].as_str();
        let found = launchable(dir, name);
        assert(text::texts(names@)[i as int] == name@);
        assert(answered(*launchable, dir, name@, found));
        if found {
            return Some(i);
        }
        i = i + 1;
    }
    None
}

/// Looks a tool up in the directories of `PATH`, which go by their number: the
/// first directory that has something to launch under one of the tool's file
/// names, and that file name. `launchable` tells whether a directory does.
///
/// A package manager is often installed as a shim with an extension of its
/// own, which starting it by name alone would not find. Looking it up first
/// also means that a missing tool gives a clear message.
pub fn look_path<F: Fn(usize, &str) -> bool>(
    bin: &str,
    rules: &Rules,
    dirs: usize,
    launchable: &F,
) -> (r: Option<(usize, String)>)
    requires
        forall|dir: usize, name: &str| dir < dirs ==> launchable.requires((dir, name)),
    ensures
        // A tool that is there under one of its names is found.
        r is None ==> match rules {
            Rules::Unix => forall|d: usize|
                d < dirs ==> #[trigger] answered(*launchable, d, bin@, false),
            Rules::Windows { extensions } => !has_extension(bin@, text::texts(extensions@)) ==> (
            forall|d: usize, k: int|
                d < dirs && 0 <= k < extensions@.len() ==> #[trigger] answered(
                    *launchable,
                    d,
                    bin@ + extensions@[k]@,
                    false,
                )),
        },
        // What is found is there.
        r matches Some((dir, name)) ==> answered(*launchable, dir, name@, true),
        match r {
            Some((dir, name)) => {
                &&& dir < dirs
                &&& exists|k: int| #[trigger]
                    first_in(*launchable, dir, tried_names(bin@, *rules), k) && name@
                        == tried_names(bin@, *rules)[k]
                &&& forall|d: usize|
                    d < dir ==> #[trigger] nothing_in(
                        *launchable,
                        d,
                        tried_names(bin@, *rules),
                        tried_names(bin@, *rules).len() as int,
                    )
            },
            None => forall|d: usize|
                d < dirs ==> #[trigger] nothing_in(
                    *launchable,
                    d,
                    tried_names(bin@, *rules),
                    tried_names(bin@, *rules).len() as int,
                ),
        },
{
    let names = file_names(bin, rules);
    let mut dir: usize = 0;
    while dir < dirs
        invariant
            dir <= dirs,
            text::texts(names@) == tried_names(bin@, *rules),
            forall|dir: usize, name: &str| dir < dirs ==> launchable.requires((dir, name)),
            forall|d: usize|
                d < dir ==> #[trigger] nothing_in(
                    *launchable,
                    d,
                    text::texts(names@),
                    names@.len() as int,
                ),
        decreases dirs - dir,
    {
        if let Some(k) = look_in(dir, &names, launchable) {
            assert(text::texts(names@)[k as int] == names@[k as int]@);
            return Some((dir, names[k].clone()));
        }
        dir = dir + 1;
    }
    proof {
        let tried = tried_names(bin@, *rules);
        match rules {
            Rules::Unix => {
                assert forall|d: usize| d < dirs implies #[trigger] answered(
                    *launchable,
                    d,
                    bin@,
                    false,
                ) by {
                    assert(nothing_in(*launchable, d, tried, tried.len() as int));
                    assert(tried[0] == bin@);
                }
            },
            Rules::Windows { extensions } => {
                if !has_extension(bin@, text::texts(extensions@)) {
                    assert forall|d: usize, k: int|
                        d < dirs && 0 <= k < extensions@.len() implies #[trigger] answered(
                        *launchable,
                        d,
                        bin@ + extensions@[k]@,
                        false,
                    ) by {
                        assert(nothing_in(*launchable, d, tried, tried.len() as int));
                        assert(tried[k] == bin@ + extensions@[k]@);
                    }
                }
            },
        }
    }
    None
}

/// Whether a directory entry can be launched: a file, and on platforms that
/// keep permission bits, one that somebody may execute. A file without the
/// execute bit must not shadow the real tool further down `PATH`.
pub fn launchable(is_file: bool, mode: Option<u32>) -> (r: bool)
    ensures
        r == (is_file && (mode matches Some(bits) ==> bits & 0o111 != 0)),
{
    match mode {
        Some(bits) => is_file && bits & 0o111 != 0,
        None => is_file,
    }
}

// ---------------------------------------------------------------------------
// What running it comes to
// ---------------------------------------------------------------------------
/// Why a tool did not run.
pub open spec fn trouble(bin: Seq<char>, attempt: Attempt) -> Seq<char> {
    match attempt {
        Attempt::Missing => bin + " was not found on your PATH"@,
        Attempt::NotStarted(e) => "cannot start "@ + bin + ": "@ + e@,
        Attempt::Ended(_) => Seq::empty(),
    }
}

/// A tool that did not run says so by its name, and why.
pub proof fn trouble_names_the_tool(bin: Seq<char>, why: String)
    ensures
        trouble(bin, Attempt::Missing) == bin + " was not found on your PATH"@,
        trouble(bin, Attempt::NotStarted(why)) == "cannot start "@ + bin + ": "@ + why@,
        INTERRUPTED == 130,
{
}

/// The exit code that running a tool comes to, or the message that says why it
/// did not run.
///
/// A child ended by a signal reports no code, which counts as an interrupt.
pub fn run(bin: &str, attempt: &Attempt) -> (r: Result<i32, String>)
    ensures
        match attempt {
            Attempt::Ended(Some(code)) => r == Ok::<_, String>(*code),
            Attempt::Ended(None) => r == Ok::<_, String>(INTERRUPTED),
            _ => r matches Err(msg) && msg@ == trouble(bin@, *attempt),
        },
{
    match attempt {
        Attempt::Missing => {
            let mut msg = bin.to_owned();
            msg.append(" was not found on your PATH");
            Err(msg)
        },
        Attempt::NotStarted(e) => {
            let mut msg = "cannot start ".to_owned();
            msg.append(bin);
            msg.append(": ");
            msg.append(e.as_str());
            Err(msg)
        },
        Attempt::Ended(Some(code)) => Ok(*code),
        Attempt::Ended(None) => Ok(INTERRUPTED),
    }
}

} // verus!
