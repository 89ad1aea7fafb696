//! What a manifest declares, member by member.
//!
//! Each law takes a manifest as it is written and says what reading it gives
//! for one of its members.

use vstd::prelude::*;
use vstd::utf8::*;

use crate::json;
use crate::json::grammar;
use crate::json::grammar::{ErrorView, ManifestView, TaskView};
use crate::json::tails;
use crate::json::writing;
use crate::json::{Error, Manifest, Task};
use crate::json::writing::{Array, Document, Entry, Field, Item, Member, Object, Top, Value};
use crate::text;

verus! {

/// Whether `src` is the manifest `d`, whose tasks stand in `o`: its member at
/// `j`, and no later one, goes by `task_key`.
pub open spec fn is_written(
    src: Seq<char>,
    d: Document,
    task_key: Seq<char>,
    j: int,
    o: Object<Entry>,
) -> bool {
    &&& d.ok(task_key)
    &&& encode_utf8(src) == d.bytes()
    &&& 0 <= j < d.object.members.len()
    &&& d.object.members[j].value == Top::Tasks(o)
    &&& forall|k: int|
        j < k < d.object.members.len() ==> (#[trigger] d.object.members[k]).name() != task_key
}

/// Whether an entry can be run: a command, or a task in object form.
pub open spec fn runnable(m: Member<Entry>) -> bool {
    m.value is Form || m.value matches Entry::Plain(Value::Text(_))
}

/// How many of the first `k` entries can be run.
pub open spec fn rank(o: Object<Entry>, k: int) -> int
    decreases k,
{
    if k <= 0 {
        0
    } else if runnable(o.members[k - 1]) {
        rank(o, k - 1) + 1
    } else {
        rank(o, k - 1)
    }
}

/// Whether a member of a task is a text under this name.
pub open spec fn is_text(m: Member<Field>, name: Seq<char>) -> bool {
    m.name() == name && m.value matches Field::Plain(Value::Text(_))
}

/// What that text says.
pub open spec fn text_of(m: Member<Field>) -> Seq<char> {
    writing::spelled(m.value->Plain_0->Text_0)
}

/// Whether the member at `c` is the last text under its name.
pub open spec fn last_text(f: Object<Field>, c: int, name: Seq<char>) -> bool {
    &&& 0 <= c < f.members.len()
    &&& is_text(f.members[c], name)
    &&& forall|k: int| c < k < f.members.len() ==> !is_text(#[trigger] f.members[k], name)
}

/// Whether there is no text under this name.
pub open spec fn no_text(f: Object<Field>, name: Seq<char>) -> bool {
    forall|k: int| 0 <= k < f.members.len() ==> !is_text(#[trigger] f.members[k], name)
}

/// The task that was read for the entry at `k`.
pub open spec fn read_for(
    src: Seq<char>,
    task_key: Seq<char>,
    o: Object<Entry>,
    k: int,
) -> TaskView {
    grammar::document(src, task_key)->Ok_0.tasks[rank(o, k)]
}

// ---------------------------------------------------------------------------
// Proofs
// ---------------------------------------------------------------------------
proof fn lemma_rank(o: Object<Entry>, a: int, b: int)
    requires
        0 <= a <= b,
    ensures
        0 <= rank(o, a) <= rank(o, b),
    decreases b,
{
    if a < b {
        lemma_rank(o, a, b - 1);
    } else if a > 0 {
        lemma_rank(o, a - 1, b - 1);
    }
}

proof fn lemma_tasks_of(o: Object<Entry>, n: int, k: int)
    requires
        0 <= k < n,
    ensures
        writing::tasks_of(o, n).len() == rank(o, n),
        runnable(o.members[k]) ==> {
            &&& writing::task_of(o.members[k]) is Some
            &&& 0 <= rank(o, k) < rank(o, n)
            &&& writing::tasks_of(o, n)[rank(o, k)] == writing::task_of(o.members[k])->Some_0
        },
    decreases n,
{
    if n == 1 {
        assert(writing::tasks_of(o, 0).len() == 0);
        reveal_with_fuel(rank, 2);
    } else {
        lemma_rank(o, k, n - 1);
        lemma_rank(o, 0, k);
        if k < n - 1 {
            lemma_tasks_of(o, n - 1, k);
        } else {
            lemma_tasks_of(o, n - 1, n - 2);
        }
    }
}

proof fn lemma_manifest_of(d: Document, task_key: Seq<char>, j: int, o: Object<Entry>, n: int)
    requires
        d.ok(task_key),
        0 <= j < n <= d.object.members.len(),
        d.object.members[j].value == Top::Tasks(o),
        forall|k: int|
            j < k < d.object.members.len() ==> (#[trigger] d.object.members[k]).name() != task_key,
    ensures
        writing::manifest_of(d.object, n).tasks == writing::tasks_of(o, o.members.len() as int),
    decreases n,
{
    if n - 1 > j {
        lemma_manifest_of(d, task_key, j, o, n - 1);
        let m = d.object.members[n - 1];
        assert((m.value is Tasks) == (m.name() == task_key));
    }
}

/// What was read for an entry is the task that it declares.
proof fn lemma_read(
    src: Seq<char>,
    d: Document,
    task_key: Seq<char>,
    j: int,
    o: Object<Entry>,
    k: int,
)
    requires
        is_written(src, d, task_key, j, o),
        0 <= k < o.members.len(),
        runnable(o.members[k]),
    ensures
        grammar::document(src, task_key) is Ok,
        grammar::document(src, task_key)->Ok_0.tasks.len() == rank(o, o.members.len() as int),
        0 <= rank(o, k) < rank(o, o.members.len() as int),
        writing::task_of(o.members[k]) == Some(read_for(src, task_key, o, k)),
{
    let n = d.object.members.len() as int;
    writing::written_manifest_reads_back(src, d, task_key);
    lemma_manifest_of(d, task_key, j, o, n);
    lemma_tasks_of(o, o.members.len() as int, k);
}

proof fn lemma_draft_text(f: Object<Field>, n: int, c: int, name: Seq<char>)
    requires
        0 <= n <= f.members.len(),
        name == "command"@ || name == "description"@,
        c < n,
        c >= 0 ==> is_text(f.members[c], name),
        forall|k: int| c < k < n && k >= 0 ==> !is_text(#[trigger] f.members[k], name),
    ensures
        ({
            let d = writing::draft_of(f, n);
            let got = if name == "command"@ {
                d.command
            } else {
                d.description
            };
            got == if c >= 0 {
                text_of(f.members[c])
            } else {
                Seq::<char>::empty()
            }
        }),
    decreases n,
{
    reveal_strlit("command");
    reveal_strlit("description");
    assert("command"@.len() != "description"@.len());
    if n > 0 {
        let m = f.members[n - 1];
        if c < n - 1 {
            lemma_draft_text(f, n - 1, c, name);
            assert(!is_text(m, name));
        }
    }
}

proof fn lemma_draft_no_dependencies(f: Object<Field>, n: int)
    requires
        0 <= n <= f.members.len(),
        forall|k: int| 0 <= k < n ==> !((#[trigger] f.members[k]).value is Dependencies),
    ensures
        writing::draft_of(f, n).dependencies == Seq::<Seq<char>>::empty(),
    decreases n,
{
    if n > 0 {
        assert(!(f.members[n - 1].value is Dependencies));
        lemma_draft_no_dependencies(f, n - 1);
    }
}

proof fn lemma_draft_dependencies(f: Object<Field>, n: int, x: int, a: Array)
    requires
        0 <= x < n <= f.members.len(),
        f.members[x].value == Field::Dependencies(a),
        forall|k: int|
            0 <= k < n && k != x ==> !((#[trigger] f.members[k]).value is Dependencies),
    ensures
        writing::draft_of(f, n).dependencies == a.strings(Seq::empty(), a.items.len() as int),
    decreases n,
{
    if x < n - 1 {
        assert(!(f.members[n - 1].value is Dependencies));
        lemma_draft_dependencies(f, n - 1, x, a);
    } else {
        lemma_draft_no_dependencies(f, n - 1);
    }
}

/// The texts among the items of an array, in order.
pub open spec fn item_texts(items: Seq<Item>) -> Seq<Seq<char>> {
    items.filter(|item: Item| item.value is Text).map_values(
        |item: Item| writing::spelled(item.value->Text_0),
    )
}

proof fn lemma_item_texts(a: Array, n: int)
    requires
        0 <= n <= a.items.len(),
    ensures
        a.strings(Seq::empty(), n) == item_texts(a.items.take(n)),
    decreases n,
{
    reveal(Seq::filter);
    let is = |item: Item| item.value is Text;
    let says = |item: Item| writing::spelled(item.value->Text_0);
    let now = a.items.take(n);
    if n > 0 {
        lemma_item_texts(a, n - 1);
        assert(now.drop_last() =~= a.items.take(n - 1));
        assert(now.last() == a.items[n - 1]);
        let before = now.drop_last().filter(is);
        if now.last().value is Text {
            assert(now.filter(is) == before.push(now.last()));
            assert(before.push(now.last()).map_values(says) =~= before.map_values(says).push(
                says(now.last()),
            ));
        } else {
            assert(now.filter(is) == before);
        }
    }
    assert(a.strings(Seq::empty(), n) =~= item_texts(now));
}

// ---------------------------------------------------------------------------
// Laws
// ---------------------------------------------------------------------------
/// Every entry that can be run is read, in the order they are written: it comes
/// after just as many tasks as there are such entries before it. A task keeps
/// its name, and one that is written as a text has that text for its command.
pub proof fn each_task_is_read_in_its_place(
    src: Seq<char>,
    d: Document,
    task_key: Seq<char>,
    j: int,
    o: Object<Entry>,
    k: int,
)
    requires
        is_written(src, d, task_key, j, o),
        0 <= k < o.members.len(),
        runnable(o.members[k]),
    ensures
        grammar::document(src, task_key) matches Ok(m) && {
            &&& m.tasks.len() == rank(o, o.members.len() as int)
            &&& 0 <= rank(o, k) < m.tasks.len()
            &&& m.tasks[rank(o, k)].name == writing::spelled(o.members[k].key)
            &&& o.members[k].value matches Entry::Plain(Value::Text(pieces)) ==> m.tasks[rank(
                o,
                k,
            )].command == writing::spelled(pieces) && m.tasks[rank(o, k)].description.len() == 0
        },
{
    lemma_read(src, d, task_key, j, o, k);
}

/// A task in object form that declares a command has that command, whatever
/// else it declares: neither a description nor dependencies take its place. Of
/// several commands the last counts.
pub proof fn declared_command_is_kept(
    src: Seq<char>,
    d: Document,
    task_key: Seq<char>,
    j: int,
    o: Object<Entry>,
    k: int,
    f: Object<Field>,
    c: int,
)
    requires
        is_written(src, d, task_key, j, o),
        0 <= k < o.members.len(),
        o.members[k].value == Entry::Form(f),
        last_text(f, c, "command"@),
        text_of(f.members[c]).len() > 0,
    ensures
        grammar::document(src, task_key) is Ok,
        read_for(src, task_key, o, k).name == writing::spelled(o.members[k].key),
        read_for(src, task_key, o, k).command == text_of(f.members[c]),
{
    lemma_read(src, d, task_key, j, o, k);
    lemma_draft_text(f, f.members.len() as int, c, "command"@);
}

/// Only where a task in object form declares no command, or an empty one, its
/// dependencies show in its place, in the order they are written.
pub proof fn dependencies_stand_in_for_a_command(
    src: Seq<char>,
    d: Document,
    task_key: Seq<char>,
    j: int,
    o: Object<Entry>,
    k: int,
    f: Object<Field>,
    x: int,
    a: Array,
)
    requires
        is_written(src, d, task_key, j, o),
        0 <= k < o.members.len(),
        o.members[k].value == Entry::Form(f),
        no_text(f, "command"@) || exists|c: int| #[trigger]
            last_text(f, c, "command"@) && text_of(f.members[c]).len() == 0,
        0 <= x < f.members.len(),
        f.members[x].value == Field::Dependencies(a),
        forall|y: int|
            0 <= y < f.members.len() && y != x ==> !((#[trigger] f.members[y]).value
                is Dependencies),
    ensures
        grammar::document(src, task_key) is Ok,
        read_for(src, task_key, o, k).command == (if item_texts(a.items).len() > 0 {
            "depends on: "@ + text::joined(item_texts(a.items), ", "@)
        } else {
            Seq::empty()
        }),
{
    let n = f.members.len() as int;
    lemma_read(src, d, task_key, j, o, k);
    if no_text(f, "command"@) {
        lemma_draft_text(f, n, -1, "command"@);
    } else {
        let c = choose|c: int| #[trigger]
            last_text(f, c, "command"@) && text_of(f.members[c]).len() == 0;
        lemma_draft_text(f, n, c, "command"@);
    }
    lemma_draft_dependencies(f, n, x, a);
    lemma_item_texts(a, a.items.len() as int);
    assert(a.items.take(a.items.len() as int) =~= a.items);
}

/// A task in object form that declares a description has it, whatever else it
/// declares. Of several the last counts.
pub proof fn declared_description_is_kept(
    src: Seq<char>,
    d: Document,
    task_key: Seq<char>,
    j: int,
    o: Object<Entry>,
    k: int,
    f: Object<Field>,
    c: int,
)
    requires
        is_written(src, d, task_key, j, o),
        0 <= k < o.members.len(),
        o.members[k].value == Entry::Form(f),
        last_text(f, c, "description"@),
    ensures
        grammar::document(src, task_key) is Ok,
        read_for(src, task_key, o, k).description == text_of(f.members[c]),
{
    lemma_read(src, d, task_key, j, o, k);
    lemma_draft_text(f, f.members.len() as int, c, "description"@);
    reveal_strlit("command");
    reveal_strlit("description");
    assert("command"@.len() != "description"@.len());
}

/// A task in object form that declares no description has none.
pub proof fn no_description_is_made_up(
    src: Seq<char>,
    d: Document,
    task_key: Seq<char>,
    j: int,
    o: Object<Entry>,
    k: int,
    f: Object<Field>,
)
    requires
        is_written(src, d, task_key, j, o),
        0 <= k < o.members.len(),
        o.members[k].value == Entry::Form(f),
        no_text(f, "description"@),
    ensures
        grammar::document(src, task_key) is Ok,
        read_for(src, task_key, o, k).description.len() == 0,
{
    lemma_read(src, d, task_key, j, o, k);
    lemma_draft_text(f, f.members.len() as int, -1, "description"@);
    reveal_strlit("command");
    reveal_strlit("description");
    assert("command"@.len() != "description"@.len());
}

/// A task in object form with neither a command nor dependencies has an empty
/// command.
pub proof fn without_command_or_dependencies_nothing_shows(
    src: Seq<char>,
    d: Document,
    task_key: Seq<char>,
    j: int,
    o: Object<Entry>,
    k: int,
    f: Object<Field>,
)
    requires
        is_written(src, d, task_key, j, o),
        0 <= k < o.members.len(),
        o.members[k].value == Entry::Form(f),
        no_text(f, "command"@),
        forall|y: int|
            0 <= y < f.members.len() ==> !((#[trigger] f.members[y]).value is Dependencies),
    ensures
        grammar::document(src, task_key) is Ok,
        read_for(src, task_key, o, k).command.len() == 0,
{
    let n = f.members.len() as int;
    lemma_read(src, d, task_key, j, o, k);
    lemma_draft_text(f, n, -1, "command"@);
    lemma_draft_no_dependencies(f, n);
}

/// Whether a member of the document is a text under `packageManager`.
pub open spec fn names_manager(m: Member<Top>) -> bool {
    m.name() == "packageManager"@ && m.value matches Top::Plain(Value::Text(_))
}

proof fn lemma_package_manager(d: Document, n: int, c: int)
    requires
        0 <= n <= d.object.members.len(),
        c < n,
        c >= 0 ==> names_manager(d.object.members[c]),
        forall|k: int| c < k < n && k >= 0 ==> !names_manager(#[trigger] d.object.members[k]),
    ensures
        writing::manifest_of(d.object, n).package_manager == (if c >= 0 {
            writing::spelled(d.object.members[c].value->Plain_0->Text_0)
        } else {
            Seq::<char>::empty()
        }),
    decreases n,
{
    if n > 0 && c < n - 1 {
        assert(!names_manager(d.object.members[n - 1]));
        lemma_package_manager(d, n - 1, c);
    }
}

/// The `packageManager` of a manifest that has tasks is the last text it is
/// given, whatever stands around it, or empty if it is given none.
pub proof fn package_manager_is_read(src: Seq<char>, d: Document, task_key: Seq<char>, c: int)
    requires
        d.ok(task_key),
        encode_utf8(src) == d.bytes(),
        -1 <= c < d.object.members.len(),
        c >= 0 ==> names_manager(d.object.members[c]),
        forall|k: int|
            c < k < d.object.members.len() && k >= 0 ==> !names_manager(
                #[trigger] d.object.members[k],
            ),
    ensures
        grammar::document(src, task_key) matches Ok(m) ==> m.package_manager == (if c >= 0 {
            writing::spelled(d.object.members[c].value->Plain_0->Text_0)
        } else {
            Seq::<char>::empty()
        }),
{
    writing::written_manifest_reads_back(src, d, task_key);
    lemma_package_manager(d, d.object.members.len() as int, c);
}

proof fn lemma_no_tasks(d: Document, task_key: Seq<char>, n: int)
    requires
        d.ok(task_key),
        0 <= n <= d.object.members.len(),
        forall|k: int| 0 <= k < n ==> (#[trigger] d.object.members[k]).name() != task_key,
    ensures
        writing::manifest_of(d.object, n).tasks.len() == 0,
    decreases n,
{
    if n > 0 {
        lemma_no_tasks(d, task_key, n - 1);
        let m = d.object.members[n - 1];
        assert(m.name() != task_key);
        assert((m.value is Tasks) == (m.name() == task_key));
    }
}

/// A manifest in which nothing goes by the key has no tasks, whatever it holds
/// under others.
pub proof fn other_keys_hold_no_tasks(src: Seq<char>, d: Document, task_key: Seq<char>)
    requires
        d.ok(task_key),
        encode_utf8(src) == d.bytes(),
        forall|k: int|
            0 <= k < d.object.members.len() ==> (#[trigger] d.object.members[k]).name()
                != task_key,
    ensures
        grammar::document(src, task_key) == Err::<ManifestView, _>(ErrorView::NoTasks),
{
    writing::written_manifest_reads_back(src, d, task_key);
    lemma_no_tasks(d, task_key, d.object.members.len() as int);
}

/// A manifest that is cut short anywhere before its last brace is malformed,
/// rather than read in part.
pub proof fn cut_short_is_malformed(
    src: Seq<char>,
    d: Document,
    task_key: Seq<char>,
    cut: int,
)
    requires
        d.ok(task_key),
        encode_utf8(src) == d.bytes(),
        0 <= cut <= src.len(),
        encode_utf8(src.take(cut)).len() < writing::gaps_bytes(d.lead).len()
            + d.object.bytes().len(),
    ensures
        grammar::document(src.take(cut), task_key) matches Err(ErrorView::Syntax { at, msg }),
{
    let part = src.take(cut);
    assert(part + src.skip(cut) =~= src);
    if !(grammar::document(part, task_key) matches Err(ErrorView::Syntax { at, msg })) {
        tails::lemma_same_end(part, src.skip(cut), task_key);
        writing::lemma_document_end(src, d, task_key);
        tails::lemma_end_within(part, task_key);
    }
}

/// What a task, a manifest and an error hold is all they hold, and a result is
/// taken for what it is.
pub proof fn views_leave_nothing_out(t: Task, m: Manifest, e: Error, i: int)
    requires
        0 <= i < m.tasks@.len(),
    ensures
        t@.name == t.name@ && t@.command == t.command@ && t@.description == t.description@,
        m@.tasks.len() == m.tasks@.len() && m@.tasks[i] == m.tasks@[i]@,
        m@.package_manager == m.package_manager@,
        json::task_views(m.tasks@) == m@.tasks,
        e matches Error::Syntax { at, msg } ==> e@ == (ErrorView::Syntax {
            at: at as int,
            msg: msg@,
        }),
        e is NoTasks ==> e@ is NoTasks,
        json::outcome(Ok(m)) == Ok::<_, ErrorView>(m@),
        json::outcome(Err(e)) == Err::<ManifestView, _>(e@),
{
}

/// A syntax error reads as what is wrong and where; having no tasks has its own
/// words.
pub proof fn errors_read_as_what_and_where(at: nat, msg: Seq<char>)
    ensures
        json::message(ErrorView::Syntax { at: at as int, msg }) == msg + " at byte "@
            + text::decimal(at),
        json::message(ErrorView::NoTasks) == "no scripts or tasks declared"@,
{
}

} // verus!
