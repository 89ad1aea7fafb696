//! What holds of every frame that is drawn.

use vstd::prelude::*;

use crate::json::grammar::TaskView;
use crate::text;
use crate::ui::frame;
use crate::ui::frame::{Frame, FrameView};
use crate::ui::row;
use crate::ui::session;
use crate::ui::session::{Prompt, Session};

verus! {

// ---------------------------------------------------------------------------
// Rows
// ---------------------------------------------------------------------------
/// A task with neither a command nor a description is shown by its name alone.
/// Otherwise the name is padded, and the command follows, or the description,
/// or the command and then the description in parentheses.
pub proof fn rows_hold_what_there_is(t: TaskView, pad: int)
    ensures
        t.command.len() == 0 && t.description.len() == 0 ==> row::full_row(t, pad) == t.name,
        t.command.len() > 0 && t.description.len() == 0 ==> row::full_row(t, pad) == text::padded(
            t.name,
            pad,
        ) + "  "@ + t.command,
        t.command.len() == 0 && t.description.len() > 0 ==> row::full_row(t, pad) == text::padded(
            t.name,
            pad,
        ) + "  "@ + t.description,
        t.command.len() > 0 && t.description.len() > 0 ==> row::full_row(t, pad) == text::padded(
            t.name,
            pad,
        ) + "  "@ + t.command + "  ("@ + t.description + ")"@,
{
    let name = text::padded(t.name, pad) + "  "@;
    assert(name + (t.command + "  ("@ + t.description + ")"@) =~= name + t.command + "  ("@
        + t.description + ")"@);
}

/// A row that fits in all but four columns is shown as it is, and so is any on
/// a terminal too narrow for text. Of any other, all but the last of those
/// columns are kept and the last holds an ellipsis.
pub proof fn rows_are_clipped_at_the_edge(t: TaskView, pad: int, width: int)
    ensures
        width <= 5 || row::full_row(t, pad).len() <= width - 4 ==> row::row_text(t, pad, width)
            == row::full_row(t, pad),
        width > 5 && row::full_row(t, pad).len() > width - 4 ==> {
            let r = row::row_text(t, pad, width);
            &&& r.len() == width - 4
            &&& r.last() == '…'
            &&& forall|i: int| 0 <= i < width - 5 ==> r[i] == row::full_row(t, pad)[i]
        },
{
}

// ---------------------------------------------------------------------------
// Frames
// ---------------------------------------------------------------------------
/// What a frame holds is all it holds.
pub proof fn views_leave_nothing_out(f: Frame<'_>, i: int)
    requires
        0 <= i < f.tasks@.len(),
    ensures
        f@.title == f.title@ && f@.filter == f.filter@ && f@.shown == f.shown@,
        f@.tasks.len() == f.tasks@.len() && f@.tasks[i] == f.tasks@[i]@,
        f@.cursor == f.cursor && f@.scroll == f.scroll && f@.rows == f.rows,
        f@.pad == f.pad && f@.width == f.width && f@.painted == f.painted,
{
}

/// A frame drawn over another goes up over its lines and wipes them; besides
/// that it is the same.
pub proof fn frames_wipe_the_one_before(v: FrameView)
    ensures
        v.painted > 0 ==> frame::frame_text(v) == "\x1b["@ + text::decimal(v.painted as nat)
            + "A\x1b[0J"@ + frame::frame_text(FrameView { painted: 0, ..v }),
        v.painted <= 0 ==> frame::frame_text(v) == frame::frame_text(
            FrameView { painted: 0, ..v },
        ),
        frame::rewind(v.painted) == "\x1b["@ + text::decimal(v.painted as nat) + "A\x1b[0J"@,
{
    let fresh = FrameView { painted: 0, ..v };
    lemma_body(v, fresh);
    reveal_strlit("A");
    reveal_strlit("\x1b[0J");
    reveal_strlit("A\x1b[0J");
    assert("A"@ + "\x1b[0J"@ =~= "A\x1b[0J"@);
    let up = "\x1b["@ + text::decimal(v.painted as nat);
    assert(up + "A"@ + "\x1b[0J"@ =~= up + ("A"@ + "\x1b[0J"@));
}

proof fn lemma_rows_alike(v: FrameView, w: FrameView, n: int)
    requires
        v.tasks == w.tasks,
        v.shown == w.shown,
        v.cursor == w.cursor,
        v.scroll == w.scroll,
        v.pad == w.pad,
        v.width == w.width,
    ensures
        frame::list_rows(v, n) == frame::list_rows(w, n),
    decreases n,
{
    if n > 0 {
        lemma_rows_alike(v, w, n - 1);
    }
}

proof fn lemma_body(v: FrameView, w: FrameView)
    requires
        w == (FrameView { painted: w.painted, ..v }),
    ensures
        frame::frame_body(v) == frame::frame_body(w),
{
    lemma_rows_alike(v, w, v.rows);
}

/// A frame is the title in bold, with what is typed behind it if anything is,
/// then the rows, then the help. Where nothing passes the filter it says so in
/// place of the rows, and where tasks are out of sight it says how many.
pub proof fn frames_hold_their_parts(v: FrameView)
    requires
        v.painted == 0,
    ensures
        frame::frame_text(v) == "\x1b[1m"@ + v.title + "\x1b[0m"@ + (if v.filter.len() > 0 {
            "  \x1b[2mfilter: "@ + v.filter + "\x1b[0m"@
        } else {
            Seq::empty()
        }) + "\n"@ + (if v.shown.len() == 0 {
            "  \x1b[2m(nothing matches)\x1b[0m\n"@
        } else {
            Seq::empty()
        }) + frame::list_rows(v, v.rows) + (if v.shown.len() > v.rows {
            "  \x1b[2m... "@ + text::decimal((v.shown.len() - v.rows) as nat) + " more\x1b[0m\n"@
        } else {
            Seq::empty()
        }) + "\x1b[2m  up/down move · type to filter · enter run · esc cancel\x1b[0m\n"@,
{
    let bold = "\x1b[1m"@ + v.title + "\x1b[0m"@;
    let none = Seq::<char>::empty();
    let typed = if v.filter.len() > 0 {
        "  \x1b[2mfilter: "@ + v.filter + "\x1b[0m"@
    } else {
        none
    };
    assert(bold + "  \x1b[2mfilter: "@ + v.filter + "\x1b[0m"@ =~= bold + ("  \x1b[2mfilter: "@
        + v.filter + "\x1b[0m"@));
    assert(bold + none =~= bold);
    assert(frame::heading(v.title, v.filter) == bold + typed + "\n"@);
}

/// The rows stand one under the other, in the order of the tasks shown, each on
/// a line of its own. The one under the cursor is marked and in reverse video.
pub proof fn rows_stand_in_order(v: FrameView, n: int)
    requires
        0 <= n,
    ensures
        frame::list_rows(v, 0).len() == 0,
        ({
            let label = row::row_text(v.tasks[v.shown[v.scroll + n] as int], v.pad, v.width);
            frame::list_rows(v, n + 1) == frame::list_rows(v, n) + if v.cursor == v.scroll + n {
                "\x1b[7m> "@ + label + "\x1b[0m\n"@
            } else {
                "  "@ + label + "\n"@
            }
        }),
{
}

// ---------------------------------------------------------------------------
// What a run draws
// ---------------------------------------------------------------------------
proof fn lemma_longest(tasks: Seq<TaskView>, n: nat)
    requires
        n <= tasks.len(),
    ensures
        session::longest_name(tasks, n) >= 0,
        forall|i: int|
            0 <= i < n ==> (#[trigger] tasks[i]).name.len() <= session::longest_name(tasks, n),
        session::longest_name(tasks, n) > 0 ==> exists|i: int|
            0 <= i < n && (#[trigger] tasks[i]).name.len() == session::longest_name(tasks, n),
    decreases n,
{
    if n > 0 {
        let m = (n - 1) as nat;
        lemma_longest(tasks, m);
        if session::longest_name(tasks, n) == session::longest_name(tasks, m) && session::longest_name(
            tasks,
            m,
        ) > 0 {
            let i = choose|i: int|
                0 <= i < m && (#[trigger] tasks[i]).name.len() == session::longest_name(tasks, m);
            assert(tasks[i].name.len() == session::longest_name(tasks, n));
        } else {
            assert(tasks[n - 1].name.len() == session::longest_name(tasks, n));
        }
    }
}

/// The name column is as wide as the longest name, and no wider.
pub proof fn names_fit_their_column(p: Prompt, s: Session)
    ensures
        forall|i: int|
            0 <= i < p.tasks.len() ==> (#[trigger] p.tasks[i]).name.len() <= p.frame(s).pad,
        p.frame(s).pad == 0 || exists|i: int|
            0 <= i < p.tasks.len() && (#[trigger] p.tasks[i]).name.len() == p.frame(s).pad,
{
    lemma_longest(p.tasks, p.tasks.len());
}

/// A frame shows the session as it stands: as many rows as there are tasks that
/// pass the filter, but no more than fifteen.
pub proof fn frames_show_the_session(p: Prompt, s: Session)
    ensures
        p.frame(s).title == p.title,
        p.frame(s).tasks == p.tasks,
        p.frame(s).width == p.width,
        p.frame(s).filter == s.filter,
        p.frame(s).shown == p.shown(s),
        p.frame(s).cursor == s.cursor,
        p.frame(s).painted == s.painted,
        p.frame(s).rows == if p.shown(s).len() <= 15 {
            p.shown(s).len() as int
        } else {
            15
        },
{
}

/// The window follows the cursor, and moves no further than it has to: not at
/// all while the cursor is in it, and otherwise until the cursor is on its
/// first or its last row.
pub proof fn window_moves_no_more_than_it_has_to(p: Prompt, s: Session)
    requires
        p.wf(s),
    ensures
        ({
            let v = p.frame(s);
            &&& s.scroll <= s.cursor < s.scroll + v.rows ==> v.scroll == s.scroll
            &&& s.cursor < s.scroll ==> v.scroll == s.cursor
            &&& v.rows > 0 && s.cursor >= s.scroll + v.rows ==> v.scroll + v.rows - 1 == s.cursor
            &&& v.rows == 0 ==> v.scroll == s.scroll
        }),
{
}

} // verus!
