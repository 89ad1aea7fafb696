//! One row of the list.

use vstd::prelude::*;
use vstd::string::*;

use crate::json::grammar::TaskView;
use crate::json::Task;
use crate::text;
use crate::text::pad_to;

verus! {

/// What is shown next to a task's name.
pub open spec fn detail(t: TaskView) -> Seq<char> {
    if t.command.len() == 0 {
        t.description
    } else if t.description.len() == 0 {
        t.command
    } else {
        t.command + "  ("@ + t.description + ")"@
    }
}

/// A task's row before it is clipped.
pub open spec fn full_row(t: TaskView, pad: int) -> Seq<char> {
    if detail(t).len() == 0 {
        t.name
    } else {
        text::padded(t.name, pad) + "  "@ + detail(t)
    }
}

/// `row`, clipped to a terminal of `width` columns. Four of them are left for
/// the marker. A terminal too narrow to hold any text clips nothing.
pub open spec fn clipped(row: Seq<char>, width: int) -> Seq<char> {
    let limit = width - 4;
    if limit > 1 && row.len() > limit {
        row.take(limit - 1).push('…')
    } else {
        row
    }
}

/// A task's row.
pub open spec fn row_text(t: TaskView, pad: int, width: int) -> Seq<char> {
    clipped(full_row(t, pad), width)
}

/// Renders one row as "name    command", clipped to the terminal.
pub fn label(task: &Task, pad: usize, width: usize) -> (r: String)
    ensures
        r@ == row_text(task@, pad as int, width as int),
{
    let detail = if task.command.as_str().is_empty() {
        task.description.clone()
    } else if task.description.as_str().is_empty() {
        task.command.clone()
    } else {
        let mut both = task.command.clone();
        both.append("  (");
        both.append(task.description.as_str());
        both.append(")");
        both
    };

    let row = if detail.as_str().is_empty() {
        task.name.clone()
    } else {
        let mut both = task.name.clone();
        pad_to(&mut both, task.name.as_str().unicode_len(), pad);
        both.append("  ");
        both.append(detail.as_str());
        both
    };

    // Leave room for the "> " marker.
    let limit: usize = width.saturating_sub(4);
    if limit > 1 && row.as_str().unicode_len() > limit {
        let mut clipped = row.as_str().substring_char(0, limit - 1).to_owned();
        clipped.push('…');
        return clipped;
    }
    row
}

} // verus!
