//! What holds of the picker whatever is typed.

use vstd::prelude::*;

use crate::json::grammar::TaskView;
use crate::text;
use crate::ui::filter;
use crate::ui::frame;
use crate::ui::frame::{FrameView, MAX_ROWS};
use crate::ui::row;
use crate::ui::session;
use crate::ui::session::{Call, Outcome, Prompt, Session, Step};
use crate::ui::Key;

verus! {

// ---------------------------------------------------------------------------
// Filtering
// ---------------------------------------------------------------------------
proof fn lemma_passing(tasks: Seq<TaskView>, f: Seq<char>, n: nat)
    requires
        n <= tasks.len(),
        n <= usize::MAX,
    ensures
        forall|i: usize| #[trigger]
            filter::passing(tasks, f, n).contains(i) <==> i < n && filter::passes(
                tasks[i as int],
                f,
            ),
        forall|a: int, b: int|
            0 <= a < b < filter::passing(tasks, f, n).len() ==> #[trigger] filter::passing(
                tasks,
                f,
                n,
            )[a] < #[trigger] filter::passing(tasks, f, n)[b],
    decreases n,
{
    if n > 0 {
        let before = filter::passing(tasks, f, (n - 1) as nat);
        let now = filter::passing(tasks, f, n);
        let last = (n - 1) as usize;
        lemma_passing(tasks, f, (n - 1) as nat);
        session::lemma_passing_in_range(tasks, f, (n - 1) as nat);
        assert forall|i: usize| #[trigger]
            now.contains(i) <==> i < n && filter::passes(tasks[i as int], f) by {
            if filter::passes(tasks[n - 1], f) {
                assert(now[before.len() as int] == last);
                if before.contains(i) {
                    let k = choose|k: int| 0 <= k < before.len() && before[k] == i;
                    assert(now[k] == i);
                }
                if now.contains(i) {
                    let k = choose|k: int| 0 <= k < now.len() && now[k] == i;
                    if k < before.len() {
                        assert(before[k] == i);
                    }
                }
            }
            assert(before.contains(i) <==> i < n - 1 && filter::passes(tasks[i as int], f));
        }
    }
}

/// The filter shows exactly the tasks that pass it, each once, in the order of
/// the manifest.
pub proof fn filter_shows_what_passes(tasks: Seq<TaskView>, f: Seq<char>)
    requires
        tasks.len() <= usize::MAX,
    ensures
        forall|i: usize| #[trigger]
            filter::shown(tasks, f).contains(i) <==> i < tasks.len() && filter::passes(
                tasks[i as int],
                f,
            ),
        forall|a: int, b: int|
            0 <= a < b < filter::shown(tasks, f).len() ==> #[trigger] filter::shown(tasks, f)[a]
                < #[trigger] filter::shown(tasks, f)[b],
{
    lemma_passing(tasks, f, tasks.len());
}

proof fn lemma_all_pass(tasks: Seq<TaskView>, n: nat)
    requires
        n <= tasks.len(),
        n <= usize::MAX,
    ensures
        filter::passing(tasks, Seq::empty(), n) == Seq::new(n, |i: int| i as usize),
    decreases n,
{
    if n > 0 {
        lemma_all_pass(tasks, (n - 1) as nat);
        let name = text::folded(tasks[n - 1].name);
        let none = text::folded(Seq::empty());
        assert(name.subrange(0, 0) =~= none);
        assert(filter::found_at(name, none, 0));
    }
    assert(filter::passing(tasks, Seq::empty(), n) =~= Seq::new(n, |i: int| i as usize));
}

/// With nothing typed, every task is shown.
pub proof fn empty_filter_shows_all(tasks: Seq<TaskView>)
    requires
        tasks.len() <= usize::MAX,
    ensures
        filter::shown(tasks, Seq::empty()) == Seq::new(tasks.len(), |i: int| i as usize),
{
    lemma_all_pass(tasks, tasks.len());
}

proof fn lemma_longer_needle(h: Seq<char>, f: Seq<char>, c: char)
    ensures
        filter::contains_folded(h, f.push(c)) ==> filter::contains_folded(h, f),
{
    let hay = text::folded(h);
    let long = text::folded(f.push(c));
    let short = text::folded(f);
    if filter::contains(hay, long) {
        let k = choose|k: int| filter::found_at(hay, long, k);
        assert(hay.subrange(k, k + short.len()) =~= long.subrange(0, short.len() as int)) by {
            assert forall|j: int| 0 <= j < short.len() implies hay[k + j] == long[j] by {
                assert(hay.subrange(k, k + long.len())[j] == long[j]);
            }
        }
        assert(long.subrange(0, short.len() as int) =~= short);
        assert(filter::found_at(hay, short, k));
    }
}

/// Typing one more character only narrows what is shown.
pub proof fn typing_narrows(tasks: Seq<TaskView>, f: Seq<char>, c: char, i: usize)
    requires
        tasks.len() <= usize::MAX,
        filter::shown(tasks, f.push(c)).contains(i),
    ensures
        filter::shown(tasks, f).contains(i),
{
    filter_shows_what_passes(tasks, f);
    filter_shows_what_passes(tasks, f.push(c));
    lemma_longer_needle(tasks[i as int].name, f, c);
    lemma_longer_needle(tasks[i as int].command, f, c);
}

proof fn lemma_same_fold(tasks: Seq<TaskView>, f: Seq<char>, g: Seq<char>, n: nat)
    requires
        text::folded(f) == text::folded(g),
    ensures
        filter::passing(tasks, f, n) == filter::passing(tasks, g, n),
    decreases n,
{
    if n > 0 {
        lemma_same_fold(tasks, f, g, (n - 1) as nat);
    }
}

/// Whether a filter is typed in lower or in upper case makes no difference, as
/// far as its letters are ASCII.
pub proof fn case_does_not_matter(tasks: Seq<TaskView>, f: Seq<char>, g: Seq<char>)
    requires
        text::folded(f) == text::folded(g),
    ensures
        filter::shown(tasks, f) == filter::shown(tasks, g),
{
    lemma_same_fold(tasks, f, g, tasks.len());
}

/// One text is found in another just when the other, up to ASCII case, is the
/// first with something before it and something after it.
pub proof fn found_texts_stand_there(h: Seq<char>, f: Seq<char>)
    ensures
        filter::contains_folded(h, f) <==> exists|head: Seq<char>, tail: Seq<char>|
            text::folded(h) == #[trigger] (head + text::folded(f) + tail),
{
    let hay = text::folded(h);
    let needle = text::folded(f);
    if filter::contains_folded(h, f) {
        let k = choose|k: int| filter::found_at(hay, needle, k);
        let head = hay.take(k);
        let tail = hay.skip((k + needle.len()) as int);
        assert(hay.subrange(k, k + needle.len()) == needle);
        assert(hay =~= head + needle + tail);
    }
    if exists|head: Seq<char>, tail: Seq<char>| hay == #[trigger] (head + needle + tail) {
        let (head, tail) = choose|head: Seq<char>, tail: Seq<char>|
            hay == #[trigger] (head + needle + tail);
        let k = head.len() as int;
        assert(hay.subrange(k, k + needle.len()) =~= needle);
        assert(filter::found_at(hay, needle, k));
    }
}

/// A task is shown whenever its name or its command holds what is typed, up to
/// ASCII case, whatever its description is.
pub proof fn name_or_command_is_enough(
    tasks: Seq<TaskView>,
    f: Seq<char>,
    i: usize,
    head: Seq<char>,
    tail: Seq<char>,
)
    requires
        tasks.len() <= usize::MAX,
        i < tasks.len(),
        text::folded(tasks[i as int].name) == head + text::folded(f) + tail || text::folded(
            tasks[i as int].command,
        ) == head + text::folded(f) + tail,
    ensures
        filter::shown(tasks, f).contains(i),
{
    found_texts_stand_there(tasks[i as int].name, f);
    found_texts_stand_there(tasks[i as int].command, f);
    filter_shows_what_passes(tasks, f);
}

/// Nothing else is shown: what is typed stands in the name or in the command of
/// every task that is.
pub proof fn nothing_else_is_shown(tasks: Seq<TaskView>, f: Seq<char>, i: usize)
    requires
        tasks.len() <= usize::MAX,
        filter::shown(tasks, f).contains(i),
    ensures
        i < tasks.len(),
        exists|head: Seq<char>, tail: Seq<char>|
            {
                ||| text::folded(tasks[i as int].name) == #[trigger] (head + text::folded(f) + tail)
                ||| text::folded(tasks[i as int].command) == head + text::folded(f) + tail
            },
{
    found_texts_stand_there(tasks[i as int].name, f);
    found_texts_stand_there(tasks[i as int].command, f);
    filter_shows_what_passes(tasks, f);
}

proof fn lemma_same_names(a: Seq<TaskView>, b: Seq<TaskView>, f: Seq<char>, n: nat)
    requires
        n <= a.len() == b.len(),
        forall|i: int|
            0 <= i < a.len() ==> (#[trigger] a[i]).name == b[i].name && a[i].command
                == b[i].command,
    ensures
        filter::passing(a, f, n) == filter::passing(b, f, n),
    decreases n,
{
    if n > 0 {
        lemma_same_names(a, b, f, (n - 1) as nat);
        assert(a[n - 1].name == b[n - 1].name);
    }
}

/// Descriptions play no part in what is shown.
pub proof fn descriptions_are_not_searched(a: Seq<TaskView>, b: Seq<TaskView>, f: Seq<char>)
    requires
        a.len() == b.len(),
        forall|i: int|
            0 <= i < a.len() ==> (#[trigger] a[i]).name == b[i].name && a[i].command
                == b[i].command,
    ensures
        filter::shown(a, f) == filter::shown(b, f),
{
    lemma_same_names(a, b, f, a.len());
}

// ---------------------------------------------------------------------------
// Moving and choosing
// ---------------------------------------------------------------------------
/// A run starts with nothing typed, on the first task, with nothing drawn.
pub proof fn runs_start_afresh()
    ensures
        session::start().filter.len() == 0,
        session::start().cursor == 0,
        session::start().scroll == 0,
        session::start().painted == 0,
{
}

/// Typing a character adds it to the filter, and the cursor goes back to the
/// first task shown, wherever it was.
pub proof fn typing_goes_back_to_the_top(p: Prompt, s: Session, c: char)
    ensures
        p.press(s, Key::Char(c)) matches Step::Stay(next) && next.filter == s.filter.push(c)
            && next.cursor == 0 && next.scroll == 0 && next.painted == s.painted,
{
}

/// Backspace takes the last character off the filter, if there is one, and the
/// cursor goes back to the first task shown, wherever it was.
pub proof fn backspace_goes_back_to_the_top(p: Prompt, s: Session)
    ensures
        p.press(s, Key::Backspace) matches Step::Stay(next) && next.cursor == 0 && next.scroll == 0
            && next.painted == s.painted && (s.filter.len() == 0 ==> next.filter.len() == 0) && (
        s.filter.len() > 0 ==> next.filter.push(s.filter.last()) == s.filter),
{
    if s.filter.len() > 0 {
        assert(s.filter.drop_last().push(s.filter.last()) =~= s.filter);
    }
}

/// The keys that move the cursor move nothing else. Up and down go one row,
/// as far as there is one; the others go to the first and the last.
pub proof fn moving_keys_move_the_cursor(p: Prompt, s: Session)
    requires
        p.wf(s),
    ensures
        p.press(s, Key::Up) matches Step::Stay(next) && next.cursor == if s.cursor == 0 {
            0
        } else {
            s.cursor - 1
        } && next.filter == s.filter && next.scroll == s.scroll && next.painted == s.painted,
        p.press(s, Key::Down) matches Step::Stay(next) && next.cursor == if s.cursor + 1
            < p.shown(s).len() {
            s.cursor + 1
        } else {
            s.cursor
        } && next.filter == s.filter && next.scroll == s.scroll && next.painted == s.painted,
        p.press(s, Key::Home) matches Step::Stay(next) && next.cursor == 0 && next.filter
            == s.filter && next.scroll == s.scroll && next.painted == s.painted,
        p.press(s, Key::End) matches Step::Stay(next) && next.cursor == if p.shown(s).len()
            == 0 {
            0
        } else {
            p.shown(s).len() - 1
        } && next.filter == s.filter && next.scroll == s.scroll && next.painted == s.painted,
{
}

/// Enter ends the run with the task under the cursor, if there is one. Cancel
/// ends it with none. A key that means nothing does nothing.
pub proof fn other_keys_end_the_run_or_do_nothing(p: Prompt, s: Session)
    requires
        p.wf(s),
    ensures
        p.shown(s).len() > 0 ==> p.press(s, Key::Enter) == Step::Leave(
            Outcome::Chosen(p.shown(s)[s.cursor] as int),
        ),
        p.shown(s).len() == 0 ==> p.press(s, Key::Enter) == Step::Stay(s),
        p.press(s, Key::Cancel) == Step::Leave(Outcome::Cancelled),
        p.press(s, Key::Ignored) == Step::Stay(s),
{
}

/// The tasks shown are those that pass the filter.
pub proof fn sessions_show_what_passes(p: Prompt, s: Session)
    ensures
        p.shown(s) == filter::shown(p.tasks, s.filter),
{
}

/// A run goes on key by key: each key is taken in the session whose frame was
/// drawn, and a key that ends the run is the last that is taken.
pub proof fn runs_go_key_by_key(p: Prompt, s: Session, keys: Seq<Key>)
    requires
        keys.len() > 0,
    ensures
        match p.press(p.drawn(s), keys[0]) {
            Step::Stay(next) => p.outcome(s, keys) == p.outcome(next, keys.drop_first()) && p.taken(
                s,
                keys,
            ) == 1 + p.taken(next, keys.drop_first()) && p.calls(s, keys) == seq![
                Call::Drawn(frame::frame_text(p.frame(s))),
                Call::Read(keys[0]),
            ] + p.calls(next, keys.drop_first()),
            Step::Leave(end) => p.outcome(s, keys) == Some(end) && p.taken(s, keys) == 1 && p.calls(
                s,
                keys,
            ) == seq![
                Call::Drawn(frame::frame_text(p.frame(s))),
                Call::Read(keys[0]),
                Call::Cleared(text::height(frame::frame_text(p.frame(s)))),
            ],
        },
{
    frames_take_up_their_lines(p.frame(s));
}

/// Before its first key a run has drawn a frame, and come to nothing yet.
pub proof fn runs_draw_before_they_read(p: Prompt, s: Session)
    ensures
        p.outcome(s, Seq::empty()) is None,
        p.taken(s, Seq::empty()) == 0,
        p.calls(s, Seq::empty()) == seq![Call::Drawn(frame::frame_text(p.frame(s)))],
{
}

/// Drawing a frame leaves the filter and the cursor where they are, and counts
/// the lines that were drawn.
pub proof fn drawing_changes_no_choice(p: Prompt, s: Session)
    ensures
        p.drawn(s).filter == s.filter,
        p.drawn(s).cursor == s.cursor,
        p.drawn(s).scroll == p.frame(s).scroll,
        p.drawn(s).painted == text::height(frame::frame_text(p.frame(s))),
{
    frames_take_up_their_lines(p.frame(s));
}

/// Whether task `i` is the first that holds `f`.
pub open spec fn first_match(tasks: Seq<TaskView>, f: Seq<char>, i: int) -> bool {
    &&& 0 <= i < tasks.len()
    &&& filter::passes(tasks[i], f)
    &&& forall|j: int| 0 <= j < i ==> !filter::passes(#[trigger] tasks[j], f)
}

proof fn lemma_first_shown(tasks: Seq<TaskView>, f: Seq<char>, i: int)
    requires
        tasks.len() <= usize::MAX,
        first_match(tasks, f, i),
    ensures
        filter::shown(tasks, f).len() > 0,
        filter::shown(tasks, f)[0] == i,
{
    let shown = filter::shown(tasks, f);
    filter_shows_what_passes(tasks, f);
    assert(shown.contains(i as usize));
    let k = choose|k: int| 0 <= k < shown.len() && shown[k] == i as usize;
    assert(shown.contains(shown[0]));
    if k > 0 {
        assert(shown[0] < shown[k]);
    }
}

/// Typing a text and pressing Enter runs the first task that holds what is then
/// typed, wherever the cursor was before.
pub proof fn typing_and_enter_runs_the_first_match(
    p: Prompt,
    s: Session,
    t: Seq<char>,
    keys: Seq<Key>,
    i: int,
)
    requires
        p.tasks.len() <= usize::MAX,
        t.len() > 0 || s.cursor == 0,
        first_match(p.tasks, s.filter + t, i),
        keys.len() > t.len(),
        forall|k: int| 0 <= k < t.len() ==> #[trigger] keys[k] == Key::Char(t[k]),
        keys[t.len() as int] == Key::Enter,
    ensures
        p.outcome(s, keys) == Some(Outcome::Chosen(i)),
        p.taken(s, keys) == t.len() + 1,
    decreases t.len(),
{
    if t.len() == 0 {
        assert(s.filter + t =~= s.filter);
        lemma_first_shown(p.tasks, s.filter, i);
    } else {
        let rest = t.drop_first();
        let left = keys.drop_first();
        assert(keys[0] == Key::Char(t[0]));
        let next = p.press(p.drawn(s), keys[0])->Stay_0;
        assert(s.filter.push(t[0]) + rest =~= s.filter + t);
        assert forall|k: int| 0 <= k < rest.len() implies #[trigger] left[k] == Key::Char(
            rest[k],
        ) by {
            assert(keys[k + 1] == Key::Char(t[k + 1]));
        }
        typing_and_enter_runs_the_first_match(p, next, rest, left, i);
    }
}

/// Going down `n` rows and pressing Enter runs the task that many rows further
/// down, or the last.
pub proof fn down_and_enter_runs_the_task_below(
    p: Prompt,
    s: Session,
    n: nat,
    later: Seq<Key>,
)
    requires
        p.wf(s),
        p.shown(s).len() > 0,
    ensures
        p.outcome(s, Seq::new(n, |k: int| Key::Down) + (seq![Key::Enter] + later)) == Some(
            Outcome::Chosen(
                p.shown(s)[if s.cursor + n < p.shown(s).len() {
                    s.cursor + n
                } else {
                    p.shown(s).len() - 1
                }] as int,
            ),
        ),
    decreases n,
{
    let downs = Seq::new(n, |k: int| Key::Down);
    let keys = downs + (seq![Key::Enter] + later);
    if n == 0 {
        assert(keys[0] == Key::Enter);
    } else {
        let m = (n - 1) as nat;
        let fewer = Seq::new(m, |k: int| Key::Down);
        assert(keys[0] == Key::Down);
        assert(downs.drop_first() =~= fewer);
        assert(keys.drop_first() =~= fewer + (seq![Key::Enter] + later));
        every_key_keeps_the_session_sound(p, s, Key::Down);
        let next = p.press(p.drawn(s), Key::Down)->Stay_0;
        down_and_enter_runs_the_task_below(p, next, m, later);
    }
}

/// Going up `n` rows and pressing Enter runs the task that many rows further
/// up, or the first.
pub proof fn up_and_enter_runs_the_task_above(p: Prompt, s: Session, n: nat, later: Seq<Key>)
    requires
        p.wf(s),
        p.shown(s).len() > 0,
    ensures
        p.outcome(s, Seq::new(n, |k: int| Key::Up) + (seq![Key::Enter] + later)) == Some(
            Outcome::Chosen(
                p.shown(s)[if s.cursor >= n {
                    s.cursor - n
                } else {
                    0
                }] as int,
            ),
        ),
    decreases n,
{
    let ups = Seq::new(n, |k: int| Key::Up);
    let keys = ups + (seq![Key::Enter] + later);
    if n == 0 {
        assert(keys[0] == Key::Enter);
    } else {
        let m = (n - 1) as nat;
        let fewer = Seq::new(m, |k: int| Key::Up);
        assert(keys[0] == Key::Up);
        assert(ups.drop_first() =~= fewer);
        assert(keys.drop_first() =~= fewer + (seq![Key::Enter] + later));
        every_key_keeps_the_session_sound(p, s, Key::Up);
        let next = p.press(p.drawn(s), Key::Up)->Stay_0;
        up_and_enter_runs_the_task_above(p, next, m, later);
    }
}

/// Whatever key is pressed, the cursor stays on one of the tasks shown.
pub proof fn every_key_keeps_the_session_sound(p: Prompt, s: Session, key: Key)
    requires
        p.wf(s),
    ensures
        p.wf(session::start()),
        p.wf(p.drawn(s)),
        p.press(p.drawn(s), key) matches Step::Stay(next) ==> p.wf(next),
{
    frames_take_up_their_lines(p.frame(s));
}

/// The cursor is always on a visible row, as long as there is any, and there
/// are never more rows than fit.
pub proof fn cursor_is_visible(p: Prompt, s: Session)
    requires
        p.wf(s),
    ensures
        p.frame(s).rows <= MAX_ROWS,
        p.shown(s).len() > 0 ==> p.frame(s).scroll <= s.cursor < p.frame(s).scroll + p.frame(
            s,
        ).rows,
{
}

/// Enter commits to the task whose row is marked, by its position among all
/// the tasks rather than among those shown; that task passes the filter. With
/// nothing to mark, Enter does nothing.
pub proof fn enter_runs_the_marked_task(p: Prompt, s: Session)
    requires
        p.wf(s),
        p.tasks.len() <= usize::MAX,
    ensures
        match p.press(p.drawn(s), Key::Enter) {
            Step::Leave(outcome) => {
                let v = p.frame(s);
                &&& outcome matches Outcome::Chosen(index)
                &&& 0 <= index < p.tasks.len()
                &&& filter::passes(p.tasks[index], s.filter)
                &&& 0 <= s.cursor - v.scroll < v.rows
                &&& frame::list_row(v, s.cursor - v.scroll) == "\x1b[7m> "@ + row::row_text(
                    p.tasks[index],
                    v.pad,
                    v.width,
                ) + "\x1b[0m\n"@
            },
            Step::Stay(next) => p.shown(s).len() == 0 && next == p.drawn(s),
        },
{
    filter_shows_what_passes(p.tasks, s.filter);
    if s.cursor < p.shown(s).len() {
        assert(p.shown(s).contains(p.shown(s)[s.cursor]));
    }
}

/// However the picker ends with a choice, it is one of the tasks.
pub proof fn choice_is_a_task(p: Prompt, s: Session, keys: Seq<Key>)
    requires
        p.wf(s),
        p.tasks.len() <= usize::MAX,
    ensures
        p.outcome(s, keys) matches Some(Outcome::Chosen(index)) ==> 0 <= index < p.tasks.len(),
    decreases keys.len(),
{
    if keys.len() > 0 {
        every_key_keeps_the_session_sound(p, s, keys[0]);
        enter_runs_the_marked_task(p, s);
        if let Step::Stay(next) = p.press(p.drawn(s), keys[0]) {
            choice_is_a_task(p, next, keys.drop_first());
        }
    }
}

/// The filter that the keys leave behind when they are typed after `f`.
pub open spec fn typed(f: Seq<char>, keys: Seq<Key>) -> Seq<char>
    decreases keys.len(),
{
    if keys.len() == 0 {
        f
    } else {
        typed(
            match keys[0] {
                Key::Char(c) => f.push(c),
                Key::Backspace => if f.len() > 0 {
                    f.drop_last()
                } else {
                    f
                },
                _ => f,
            },
            keys.drop_first(),
        )
    }
}

proof fn lemma_last_key(p: Prompt, s: Session, keys: Seq<Key>)
    requires
        p.wf(s),
        p.tasks.len() <= usize::MAX,
    ensures
        ({
            let n = p.taken(s, keys);
            &&& 0 <= n <= keys.len()
            &&& match p.outcome(s, keys) {
                Some(Outcome::Chosen(index)) => {
                    &&& n > 0
                    &&& keys[n - 1] == Key::Enter
                    &&& !keys.take(n).contains(Key::Cancel)
                    &&& filter::shown(p.tasks, typed(s.filter, keys.take(n))).contains(
                        index as usize,
                    )
                },
                Some(Outcome::Cancelled) => n > 0 && keys[n - 1] == Key::Cancel && !keys.take(
                    n - 1,
                ).contains(Key::Cancel),
                None => n == keys.len() && !keys.contains(Key::Cancel),
            }
        }),
    decreases keys.len(),
{
    if keys.len() > 0 {
        let rest = keys.drop_first();
        let n = p.taken(s, keys);
        every_key_keeps_the_session_sound(p, s, keys[0]);
        match p.press(p.drawn(s), keys[0]) {
            Step::Stay(next) => {
                lemma_last_key(p, next, rest);
                let m = n - 1;
                assert(keys.take(n).drop_first() =~= rest.take(m));
                assert(keys.take(n) =~= seq![keys[0]] + rest.take(m));
                if m > 0 {
                    assert(keys.take(m) =~= seq![keys[0]] + rest.take(m - 1));
                    assert(keys[n - 1] == rest[m - 1]);
                }
                assert(keys =~= seq![keys[0]] + rest);
                assert(typed(s.filter, keys.take(n)) == typed(next.filter, rest.take(m)));
            },
            Step::Leave(_) => {
                assert(keys.take(1) =~= seq![keys[0]]);
                assert(keys.take(1).drop_first() =~= Seq::<Key>::empty());
                reveal_with_fuel(typed, 2);
                assert(keys.take(0) =~= Seq::<Key>::empty());
                if keys[0] == Key::Enter {
                    session::lemma_passing_in_range(p.tasks, s.filter, p.tasks.len());
                    assert(p.shown(s)[s.cursor] == p.outcome(s, keys)->Some_0->Chosen_0 as usize);
                    assert(p.shown(s).contains(p.shown(s)[s.cursor]));
                }
            },
        }
    }
}

/// A run takes the keys up to the Enter that commits to a task, none of them
/// Cancel, and the task passes the filter that those keys type; or up to the
/// first Cancel; or all of them.
pub proof fn run_ends_with_its_last_key(p: Prompt, keys: Seq<Key>)
    requires
        p.tasks.len() <= usize::MAX,
    ensures
        ({
            let n = p.taken(session::start(), keys);
            &&& 0 <= n <= keys.len()
            &&& match p.outcome(session::start(), keys) {
                Some(Outcome::Chosen(index)) => {
                    &&& n > 0
                    &&& keys[n - 1] == Key::Enter
                    &&& !keys.take(n).contains(Key::Cancel)
                    &&& filter::shown(p.tasks, typed(Seq::empty(), keys.take(n))).contains(
                        index as usize,
                    )
                },
                Some(Outcome::Cancelled) => n > 0 && keys[n - 1] == Key::Cancel && !keys.take(
                    n - 1,
                ).contains(Key::Cancel),
                None => n == keys.len() && !keys.contains(Key::Cancel),
            }
        }),
{
    lemma_last_key(p, session::start(), keys);
}

/// Backspace takes back the last character typed, and what was shown before it
/// is shown again.
pub proof fn backspace_undoes_typing(p: Prompt, s: Session, c: char)
    ensures
        ({
            let typed = p.press(s, Key::Char(c))->Stay_0;
            let back = p.press(p.drawn(typed), Key::Backspace)->Stay_0;
            &&& p.press(s, Key::Char(c)) is Stay
            &&& p.press(p.drawn(typed), Key::Backspace) is Stay
            &&& back.filter == s.filter
            &&& p.shown(back) == p.shown(s)
            &&& back.cursor == 0
        }),
{
    assert(s.filter.push(c).drop_last() =~= s.filter);
}

/// Cancelling chooses nothing, wherever the session stands.
pub proof fn cancel_chooses_nothing(p: Prompt, s: Session, keys: Seq<Key>)
    requires
        keys.len() > 0,
        keys[0] == Key::Cancel,
    ensures
        p.outcome(s, keys) == Some(Outcome::Cancelled),
{
}

// ---------------------------------------------------------------------------
// Rows
// ---------------------------------------------------------------------------
/// A row never runs past the terminal, four columns of which are left for the
/// marker. What is cut off shows as an ellipsis.
pub proof fn rows_fit_the_terminal(t: TaskView, pad: int, width: int)
    requires
        width > 5,
    ensures
        row::row_text(t, pad, width).len() <= width - 4,
        row::row_text(t, pad, width) != row::full_row(t, pad) ==> row::row_text(
            t,
            pad,
            width,
        ).last() == '…',
{
}

// ---------------------------------------------------------------------------
// Redrawing
// ---------------------------------------------------------------------------
/// Whether a text stays on its line.
pub open spec fn one_line(s: Seq<char>) -> bool {
    forall|i: int| 0 <= i < s.len() ==> s[i] != '\n'
}

proof fn lemma_one_line(s: Seq<char>, n: nat)
    requires
        one_line(s),
        n <= s.len(),
    ensures
        text::line_ends(s, n) == 0,
    decreases n,
{
    if n > 0 {
        lemma_one_line(s, (n - 1) as nat);
    }
}

proof fn lemma_height_one_line(s: Seq<char>)
    requires
        one_line(s),
    ensures
        text::height(s) == 0,
{
    lemma_one_line(s, s.len());
}

proof fn lemma_decimal_one_line(n: nat)
    ensures
        one_line(text::decimal(n)),
    decreases n,
{
    if n >= 10 {
        lemma_decimal_one_line(n / 10);
    }
}

/// How many lines the fixed parts of a frame take up.
proof fn lemma_literals()
    ensures
        text::height("\x1b["@) == 0,
        text::height("A"@) == 0,
        text::height("\x1b[0J"@) == 0,
        text::height("\x1b[1m"@) == 0,
        text::height("\x1b[0m"@) == 0,
        text::height("\n"@) == 1,
        text::height("  \x1b[2mfilter: "@) == 0,
        text::height("\x1b[7m> "@) == 0,
        text::height("\x1b[0m\n"@) == 1,
        text::height("  "@) == 0,
        text::height("  \x1b[2m... "@) == 0,
        text::height(" more\x1b[0m\n"@) == 1,
        text::height("  \x1b[2m(nothing matches)\x1b[0m\n"@) == 1,
        text::height(frame::help()) == 1,
{
    reveal_with_fuel(text::line_ends, 80);
    reveal_strlit("\x1b[");
    reveal_strlit("A");
    reveal_strlit("\x1b[0J");
    reveal_strlit("\x1b[1m");
    reveal_strlit("\x1b[0m");
    reveal_strlit("\n");
    reveal_strlit("  \x1b[2mfilter: ");
    reveal_strlit("\x1b[7m> ");
    reveal_strlit("\x1b[0m\n");
    reveal_strlit("  ");
    reveal_strlit("  \x1b[2m... ");
    reveal_strlit(" more\x1b[0m\n");
    reveal_strlit("  \x1b[2m(nothing matches)\x1b[0m\n");
    reveal_strlit("\x1b[2m  up/down move · type to filter · enter run · esc cancel\x1b[0m\n");
}

/// Whether the row of each task stays on its line.
pub open spec fn rows_one_line(tasks: Seq<TaskView>, pad: int, width: int) -> bool {
    forall|i: int|
        0 <= i < tasks.len() ==> one_line(row::row_text(#[trigger] tasks[i], pad, width))
}

proof fn lemma_rows_height(v: FrameView, n: int)
    requires
        v.wf(),
        0 <= n <= v.rows,
        rows_one_line(v.tasks, v.pad, v.width),
    ensures
        text::height(frame::list_rows(v, n)) == n,
    decreases n,
{
    lemma_literals();
    if n > 0 {
        lemma_rows_height(v, n - 1);
        let k = v.scroll + n - 1;
        assert(v.shown[k] < v.tasks.len());
        let label = row::row_text(v.tasks[v.shown[k] as int], v.pad, v.width);
        assert(one_line(label));
        lemma_height_one_line(label);
        text::lemma_height("\x1b[7m> "@, label);
        text::lemma_height("\x1b[7m> "@ + label, "\x1b[0m\n"@);
        text::lemma_height("  "@, label);
        text::lemma_height("  "@ + label, "\n"@);
        text::lemma_height(frame::list_rows(v, n - 1), frame::list_row(v, n - 1));
    } else {
        assert(text::height(frame::list_rows(v, n)) == 0);
    }
}

proof fn lemma_rewind_height(lines: int)
    ensures
        text::height(frame::rewind(lines)) == 0,
{
    let n = text::decimal(lines as nat);
    lemma_literals();
    lemma_decimal_one_line(lines as nat);
    lemma_height_one_line(n);
    text::lemma_height("\x1b["@, n);
    text::lemma_height("\x1b["@ + n, "A"@);
    text::lemma_height("\x1b["@ + n + "A"@, "\x1b[0J"@);
}

proof fn lemma_heading_height(title: Seq<char>, f: Seq<char>)
    requires
        one_line(title),
        one_line(f),
    ensures
        text::height(frame::heading(title, f)) == 1,
{
    lemma_literals();
    lemma_height_one_line(title);
    lemma_height_one_line(f);
    let bold = "\x1b[1m"@ + title + "\x1b[0m"@;
    text::lemma_height("\x1b[1m"@, title);
    text::lemma_height("\x1b[1m"@ + title, "\x1b[0m"@);
    text::lemma_height(bold, "\n"@);
    text::lemma_height(bold, "  \x1b[2mfilter: "@);
    text::lemma_height(bold + "  \x1b[2mfilter: "@, f);
    text::lemma_height(bold + "  \x1b[2mfilter: "@ + f, "\x1b[0m"@);
    text::lemma_height(bold + "  \x1b[2mfilter: "@ + f + "\x1b[0m"@, "\n"@);
}

/// The lines a frame is counted for, text by text: those of the title, the
/// filter and the rows, wherever they hold line breaks of their own, and one
/// for each line there is anyway.
proof fn lemma_body_height(v: FrameView)
    requires
        v.wf(),
    ensures
        frame::frame_lines(v) == text::height(frame::heading(v.title, v.filter)) + text::height(
            frame::placeholder(v),
        ) + text::height(frame::list_rows(v, v.rows)) + text::height(frame::remainder(v)) + 1,
{
    lemma_literals();
    let head = frame::heading(v.title, v.filter);
    let top = head + frame::placeholder(v);
    let list = top + frame::list_rows(v, v.rows);
    text::lemma_height(head, frame::placeholder(v));
    text::lemma_height(top, frame::list_rows(v, v.rows));
    text::lemma_height(list, frame::remainder(v));
    text::lemma_height(list + frame::remainder(v), frame::help());
}

/// A frame takes up exactly the lines it is counted for, of which there is at
/// least one.
pub proof fn frames_take_up_their_lines(v: FrameView)
    ensures
        text::height(frame::frame_text(v)) == frame::frame_lines(v),
        frame::frame_lines(v) > 0,
{
    let above = frame::heading(v.title, v.filter) + frame::placeholder(v) + frame::list_rows(
        v,
        v.rows,
    ) + frame::remainder(v);
    lemma_literals();
    text::lemma_height(above, frame::help());
    text::lemma_line_ends_bounds(above, above.len());
    lemma_rewind_height(v.painted);
    text::lemma_height(frame::rewind(v.painted), frame::frame_body(v));
}

/// Where neither the title, the filter nor a row has a line break of its own,
/// that is one line for the title, one for each row, one for the help, and one
/// each for saying that nothing matches and how many tasks are not visible.
pub proof fn plain_frames_take_a_line_each(v: FrameView)
    requires
        v.wf(),
        one_line(v.title),
        one_line(v.filter),
        rows_one_line(v.tasks, v.pad, v.width),
    ensures
        frame::frame_lines(v) == 2 + v.rows + (if v.shown.len() == 0 {
            1int
        } else {
            0
        }) + (if frame::hidden(v) > 0 {
            1int
        } else {
            0
        }),
{
    lemma_literals();
    lemma_heading_height(v.title, v.filter);
    lemma_rows_height(v, v.rows);
    let n = text::decimal(frame::hidden(v) as nat);
    lemma_decimal_one_line(frame::hidden(v) as nat);
    lemma_height_one_line(n);
    text::lemma_height("  \x1b[2m... "@, n);
    text::lemma_height("  \x1b[2m... "@ + n, " more\x1b[0m\n"@);
    assert(text::height(Seq::<char>::empty()) == 0);
    lemma_body_height(v);
}

/// Whether the call after the `k`th is the one that may follow: one key is read
/// for each frame, and what comes next starts by rewinding over exactly the
/// lines of that frame, or clears exactly those.
pub open spec fn in_turn(calls: Seq<Call>, k: int) -> bool {
    match calls[k] {
        Call::Drawn(_) => calls[k + 1] is Read,
        Call::Read(_) => k > 0 && (calls[k - 1] matches Call::Drawn(shown) && match calls[k + 1] {
            Call::Drawn(next) => frame::rewind(text::height(shown)).is_prefix_of(next),
            Call::Cleared(lines) => lines == text::height(shown),
            _ => false,
        }),
        _ => false,
    }
}

proof fn lemma_redraws(p: Prompt, s: Session, keys: Seq<Key>)
    ensures
        p.calls(s, keys).len() > 0,
        p.calls(s, keys)[0] == Call::Drawn(frame::frame_text(p.frame(s))),
        forall|k: int|
            0 <= k < p.calls(s, keys).len() - 1 ==> #[trigger] in_turn(p.calls(s, keys), k),
        if p.outcome(s, keys) is Some {
            p.calls(s, keys).last() is Cleared
        } else {
            p.calls(s, keys).last() is Drawn
        },
    decreases keys.len(),
{
    let calls = p.calls(s, keys);
    let v = p.frame(s);
    frames_take_up_their_lines(v);
    if keys.len() > 0 {
        match p.press(p.drawn(s), keys[0]) {
            Step::Stay(next) => {
                let later = p.calls(next, keys.drop_first());
                lemma_redraws(p, next, keys.drop_first());
                assert(next.painted == frame::frame_lines(v));
                let body = frame::frame_body(p.frame(next));
                assert(frame::rewind(next.painted).is_prefix_of(
                    frame::rewind(next.painted) + body,
                ));
                assert(calls.last() == later.last());
                assert forall|k: int| 0 <= k < calls.len() - 1 implies #[trigger] in_turn(
                    calls,
                    k,
                ) by {
                    if k >= 2 {
                        assert(in_turn(later, k - 2));
                        assert(calls[k - 1] == (if k > 2 {
                            later[k - 3]
                        } else {
                            Call::Read(keys[0])
                        }));
                        assert(calls[k] == later[k - 2]);
                        assert(calls[k + 1] == later[k - 1]);
                    } else {
                        assert(calls[2] == later[0]);
                    }
                }
            },
            Step::Leave(_) => {},
        }
    }
}

/// Every frame rewinds exactly over the one before it, the first over nothing,
/// and leaving clears exactly the last: the picker neither eats scrollback nor
/// leaves a trace, whatever line breaks there are in the texts. One key is read
/// for each frame.
pub proof fn redrawing_is_exact(p: Prompt, keys: Seq<Key>)
    ensures
        ({
            let calls = p.calls(session::start(), keys);
            &&& calls.len() > 0
            &&& calls[0] == Call::Drawn(frame::frame_body(p.frame(session::start())))
            &&& forall|k: int| 0 <= k < calls.len() - 1 ==> #[trigger] in_turn(calls, k)
            &&& p.outcome(session::start(), keys) is Some ==> calls.last() is Cleared
        }),
{
    lemma_redraws(p, session::start(), keys);
}

} // verus!
