//! One drawing of the picker.

use vstd::prelude::*;
use vstd::string::*;

use crate::json;
use crate::json::grammar::TaskView;
use crate::json::Task;
use crate::text;
use crate::text::{append_decimal, count_lines};
use crate::ui::row;
use crate::ui::row::label;

verus! {

/// Most rows the list may occupy, so a project with many scripts scrolls in
/// place rather than flooding the scrollback.
pub const MAX_ROWS: usize = 15;

/// Everything one frame needs to draw itself.
pub struct Frame<'a> {
    pub title: &'a str,
    pub filter: &'a str,
    pub tasks: &'a [Task],
    /// Positions of the tasks that pass the filter.
    pub shown: &'a [usize],
    /// Position within `shown`.
    pub cursor: usize,
    /// First visible row.
    pub scroll: usize,
    pub rows: usize,
    /// Width of the name column.
    pub pad: usize,
    pub width: usize,
    /// Lines drawn last frame, so they can be cleared.
    pub painted: usize,
}

/// What a frame shows.
pub struct FrameView {
    pub title: Seq<char>,
    pub filter: Seq<char>,
    pub tasks: Seq<TaskView>,
    pub shown: Seq<usize>,
    pub cursor: int,
    pub scroll: int,
    pub rows: int,
    pub pad: int,
    pub width: int,
    pub painted: int,
}

impl<'a> View for Frame<'a> {
    type V = FrameView;

    open spec fn view(&self) -> FrameView {
        FrameView {
            title: self.title@,
            filter: self.filter@,
            tasks: json::task_views(self.tasks@),
            shown: self.shown@,
            cursor: self.cursor as int,
            scroll: self.scroll as int,
            rows: self.rows as int,
            pad: self.pad as int,
            width: self.width as int,
            painted: self.painted as int,
        }
    }
}

impl FrameView {
    /// The visible rows are rows of the list, each of them one of a task.
    pub open spec fn wf(self) -> bool {
        &&& 0 <= self.scroll
        &&& 0 <= self.rows
        &&& self.rows > 0 ==> self.scroll + self.rows <= self.shown.len()
        &&& forall|i: int|
            self.scroll <= i < self.scroll + self.rows ==> (#[trigger] self.shown[i])
                < self.tasks.len()
    }
}

/// Moves up over `lines` lines and wipes everything from there on.
pub open spec fn rewind(lines: int) -> Seq<char> {
    "\x1b["@ + text::decimal(lines as nat) + "A"@ + "\x1b[0J"@
}

/// The title line.
pub open spec fn heading(title: Seq<char>, filter: Seq<char>) -> Seq<char> {
    let shown_title = "\x1b[1m"@ + title + "\x1b[0m"@;
    if filter.len() == 0 {
        shown_title + "\n"@
    } else {
        shown_title + "  \x1b[2mfilter: "@ + filter + "\x1b[0m"@ + "\n"@
    }
}

/// The visible row `k`, in reverse video under the cursor.
pub open spec fn list_row(v: FrameView, k: int) -> Seq<char> {
    let label = row::row_text(v.tasks[v.shown[v.scroll + k] as int], v.pad, v.width);
    if v.scroll + k == v.cursor {
        "\x1b[7m> "@ + label + "\x1b[0m\n"@
    } else {
        "  "@ + label + "\n"@
    }
}

/// The first `n` visible rows.
pub open spec fn list_rows(v: FrameView, n: int) -> Seq<char>
    decreases n,
{
    if n <= 0 {
        Seq::empty()
    } else {
        list_rows(v, n - 1) + list_row(v, n - 1)
    }
}

/// How many tasks pass the filter without being visible.
pub open spec fn hidden(v: FrameView) -> int {
    v.shown.len() - v.rows
}

/// The line shown in place of an empty list.
pub open spec fn placeholder(v: FrameView) -> Seq<char> {
    if v.shown.len() == 0 {
        "  \x1b[2m(nothing matches)\x1b[0m\n"@
    } else {
        Seq::empty()
    }
}

/// The line that says how many tasks there are beyond the visible ones.
pub open spec fn remainder(v: FrameView) -> Seq<char> {
    if hidden(v) > 0 {
        "  \x1b[2m... "@ + text::decimal(hidden(v) as nat) + " more\x1b[0m\n"@
    } else {
        Seq::empty()
    }
}

/// The line under the list.
pub open spec fn help() -> Seq<char> {
    "\x1b[2m  up/down move · type to filter · enter run · esc cancel\x1b[0m\n"@
}

/// A frame without the rewinding in front of it.
pub open spec fn frame_body(v: FrameView) -> Seq<char> {
    heading(v.title, v.filter) + placeholder(v) + list_rows(v, v.rows) + remainder(v) + help()
}

/// A frame: wiping the one before, then the title, the rows and the help.
pub open spec fn frame_text(v: FrameView) -> Seq<char> {
    if v.painted > 0 {
        rewind(v.painted) + frame_body(v)
    } else {
        frame_body(v)
    }
}

/// How many lines a frame occupies, line breaks in its texts included.
pub open spec fn frame_lines(v: FrameView) -> int {
    text::height(frame_body(v))
}

/// Returns to the top of the previous frame and wipes it.
fn append_rewind(frame: &mut String, lines: usize)
    ensures
        final(frame)@ == old(frame)@ + rewind(lines as int),
{
    frame.append("\x1b[");
    append_decimal(frame, lines);
    frame.append("A");
    frame.append("\x1b[0J");
    assert(frame@ =~= old(frame)@ + rewind(lines as int));
}

fn append_heading(frame: &mut String, title: &str, filter: &str)
    ensures
        final(frame)@ == old(frame)@ + heading(title@, filter@),
{
    frame.append("\x1b[1m");
    frame.append(title);
    frame.append("\x1b[0m");
    if !filter.is_empty() {
        frame.append("  \x1b[2mfilter: ");
        frame.append(filter);
        frame.append("\x1b[0m");
    }
    frame.append("\n");
    assert(frame@ =~= old(frame)@ + heading(title@, filter@));
}

fn append_row(frame: &mut String, v: &Frame<'_>, k: usize)
    requires
        v@.wf(),
        k < v.rows,
    ensures
        final(frame)@ == old(frame)@ + list_row(v@, k as int),
{
    assert(v.shown@.len() == v.shown.len());
    let idx = v.shown[v.scroll + k];
    assert(v@.shown[v.scroll + k] == idx);
    let text = label(&v.tasks[idx], v.pad, v.width);

    if v.scroll + k == v.cursor {
        // Reverse video reads correctly on any colour scheme.
        frame.append("\x1b[7m> ");
        frame.append(text.as_str());
        frame.append("\x1b[0m\n");
    } else {
        frame.append("  ");
        frame.append(text.as_str());
        frame.append("\n");
    }
    assert(frame@ =~= old(frame)@ + list_row(v@, k as int));
}

/// Builds one frame and reports how many lines it occupies, so the next redraw
/// knows how far up to move before clearing.
pub fn render(v: &Frame<'_>) -> (r: (String, usize))
    requires
        v@.wf(),
    ensures
        r.0@ == frame_text(v@),
        r.1 == frame_lines(v@),
{
    let mut body = String::new();
    append_heading(&mut body, v.title, v.filter);

    if v.shown.len() == 0 {
        body.append("  \x1b[2m(nothing matches)\x1b[0m\n");
    }
    let ghost top = heading(v@.title, v@.filter) + placeholder(v@);

    let mut k: usize = 0;
    assert(body@ =~= top + list_rows(v@, 0));
    while k < v.rows
        invariant
            k <= v.rows,
            v@.wf(),
            body@ == top + list_rows(v@, k as int),
        decreases v.rows - k,
    {
        append_row(&mut body, v, k);
        k = k + 1;
        assert(body@ =~= top + list_rows(v@, k as int));
    }
    let ghost list = top + list_rows(v@, v@.rows);

    let hidden_count: usize = v.shown.len() - v.rows;
    if hidden_count > 0 {
        body.append("  \x1b[2m... ");
        append_decimal(&mut body, hidden_count);
        body.append(" more\x1b[0m\n");
    }
    assert(body@ =~= list + remainder(v@));

    body.append("\x1b[2m  up/down move · type to filter · enter run · esc cancel\x1b[0m\n");
    assert(body@ =~= frame_body(v@));

    // A title or a command may hold line breaks of its own, so the lines are
    // counted rather than added up.
    let lines: usize = count_lines(body.as_str());

    if v.painted > 0 {
        let mut frame = String::new();
        append_rewind(&mut frame, v.painted);
        frame.append(body.as_str());
        assert(frame@ =~= frame_text(v@));
        (frame, lines)
    } else {
        (body, lines)
    }
}

/// What erases a drawn frame of this many lines, so that the picker leaves no
/// trace behind.
pub fn wipe(lines: usize) -> (r: String)
    ensures
        r@ == (if lines > 0 {
            rewind(lines as int)
        } else {
            Seq::empty()
        }),
{
    let mut out = String::new();
    if lines > 0 {
        append_rewind(&mut out, lines);
        assert(out@ =~= rewind(lines as int));
    }
    out
}

/// The width to draw for, when the terminal reports this one.
pub fn columns(reported: Option<usize>) -> (r: usize)
    ensures
        r == (match reported {
            Some(n) if n > 0 => n,
            _ => 80,
        }),
{
    match reported {
        Some(n) if n > 0 => n,
        _ => 80,
    }
}

} // verus!
