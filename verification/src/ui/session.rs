//! What a run of the picker comes to, key by key.

use vstd::prelude::*;

use crate::json::grammar::TaskView;
use crate::ui::filter;
use crate::ui::frame;
use crate::ui::frame::{FrameView, MAX_ROWS};
use crate::ui::{Error, Key};

verus! {

/// A call on a console, with what came of it.
pub enum Call {
    /// A text was written.
    Drawn(Seq<char>),
    /// A key was read.
    Read(Key),
    /// This many lines were erased.
    Cleared(int),
    /// The console failed.
    Failed(Error),
}

/// What stays the same during a run.
pub struct Prompt {
    pub title: Seq<char>,
    pub tasks: Seq<TaskView>,
    pub width: int,
}

/// Where a run stands.
pub struct Session {
    pub filter: Seq<char>,
    /// Position within the tasks that pass the filter.
    pub cursor: int,
    /// First visible row.
    pub scroll: int,
    /// Lines drawn last frame.
    pub painted: int,
}

/// How a run ends.
pub enum Outcome {
    /// With the task at this position.
    Chosen(int),
    Cancelled,
}

/// What a key does.
pub enum Step {
    Stay(Session),
    Leave(Outcome),
}

/// Where a run starts.
pub open spec fn start() -> Session {
    Session { filter: Seq::empty(), cursor: 0, scroll: 0, painted: 0 }
}

/// The longest name among the first `n` tasks.
pub open spec fn longest_name(tasks: Seq<TaskView>, n: nat) -> int
    decreases n,
{
    if n == 0 {
        0
    } else {
        let before = longest_name(tasks, (n - 1) as nat);
        let len = tasks[n - 1].name.len() as int;
        if len > before {
            len
        } else {
            before
        }
    }
}

/// How many of `n` tasks are visible at once.
pub open spec fn visible(n: nat) -> int {
    if n < MAX_ROWS {
        n as int
    } else {
        MAX_ROWS as int
    }
}

impl Prompt {
    /// The tasks that pass the session's filter.
    pub open spec fn shown(self, s: Session) -> Seq<usize> {
        filter::shown(self.tasks, s.filter)
    }

    /// The first visible row, once the window has followed the cursor.
    pub open spec fn window(self, s: Session) -> int {
        let rows = visible(self.shown(s).len());
        if s.cursor < s.scroll {
            s.cursor
        } else if rows > 0 && s.cursor >= s.scroll + rows {
            s.cursor + 1 - rows
        } else {
            s.scroll
        }
    }

    /// The frame that is drawn next.
    pub open spec fn frame(self, s: Session) -> FrameView {
        FrameView {
            title: self.title,
            filter: s.filter,
            tasks: self.tasks,
            shown: self.shown(s),
            cursor: s.cursor,
            scroll: self.window(s),
            rows: visible(self.shown(s).len()),
            pad: longest_name(self.tasks, self.tasks.len()),
            width: self.width,
            painted: s.painted,
        }
    }

    /// The session once that frame is drawn.
    pub open spec fn drawn(self, s: Session) -> Session {
        Session {
            scroll: self.window(s),
            painted: frame::frame_lines(self.frame(s)),
            ..s
        }
    }

    /// What a key does to a session whose frame is drawn.
    pub open spec fn press(self, s: Session, key: Key) -> Step {
        let last = self.shown(s).len() - 1;
        match key {
            Key::Enter => if s.cursor <= last {
                Step::Leave(Outcome::Chosen(self.shown(s)[s.cursor] as int))
            } else {
                Step::Stay(s)
            },
            Key::Cancel => Step::Leave(Outcome::Cancelled),
            Key::Up => Step::Stay(
                Session {
                    cursor: if s.cursor > 0 {
                        s.cursor - 1
                    } else {
                        0
                    },
                    ..s
                },
            ),
            Key::Down => Step::Stay(
                Session {
                    cursor: if s.cursor < last {
                        s.cursor + 1
                    } else {
                        s.cursor
                    },
                    ..s
                },
            ),
            Key::Home => Step::Stay(Session { cursor: 0, ..s }),
            Key::End => Step::Stay(
                Session {
                    cursor: if last > 0 {
                        last
                    } else {
                        0
                    },
                    ..s
                },
            ),
            Key::Backspace => Step::Stay(
                Session {
                    filter: if s.filter.len() > 0 {
                        s.filter.drop_last()
                    } else {
                        s.filter
                    },
                    cursor: 0,
                    scroll: 0,
                    ..s
                },
            ),
            Key::Char(c) => Step::Stay(
                Session { filter: s.filter.push(c), cursor: 0, scroll: 0, ..s },
            ),
            Key::Ignored => Step::Stay(s),
        }
    }

    /// The cursor is on one of the tasks shown, if there are any, and the
    /// window is a window of the list.
    pub open spec fn wf(self, s: Session) -> bool {
        let n = self.shown(s).len();
        &&& 0 <= s.cursor
        &&& s.cursor < n || s.cursor == 0
        &&& 0 <= s.scroll
        &&& s.scroll + visible(n) <= n
        &&& 0 <= s.painted
    }

    /// The calls on the console from `s` on, until the picker leaves or the
    /// keys run out: a frame is drawn, a key is read, and so on in turn.
    pub open spec fn calls(self, s: Session, keys: Seq<Key>) -> Seq<Call>
        decreases keys.len(),
    {
        let first = Call::Drawn(frame::frame_text(self.frame(s)));
        if keys.len() == 0 {
            seq![first]
        } else {
            let both = seq![first, Call::Read(keys[0])];
            match self.press(self.drawn(s), keys[0]) {
                Step::Stay(next) => both + self.calls(next, keys.drop_first()),
                Step::Leave(_) => both.push(Call::Cleared(self.drawn(s).painted)),
            }
        }
    }

    /// How many of the keys the run from `s` on takes.
    pub open spec fn taken(self, s: Session, keys: Seq<Key>) -> int
        decreases keys.len(),
    {
        if keys.len() == 0 {
            0
        } else {
            match self.press(self.drawn(s), keys[0]) {
                Step::Stay(next) => 1 + self.taken(next, keys.drop_first()),
                Step::Leave(_) => 1,
            }
        }
    }

    /// How the run from `s` on ends, if it does before the keys run out.
    pub open spec fn outcome(self, s: Session, keys: Seq<Key>) -> Option<Outcome>
        decreases keys.len(),
    {
        if keys.len() == 0 {
            None
        } else {
            match self.press(self.drawn(s), keys[0]) {
                Step::Stay(next) => self.outcome(next, keys.drop_first()),
                Step::Leave(outcome) => Some(outcome),
            }
        }
    }
}

/// Every position that is shown is one of a task.
pub proof fn lemma_passing_in_range(tasks: Seq<TaskView>, filter: Seq<char>, n: nat)
    requires
        n <= tasks.len(),
        n <= usize::MAX,
    ensures
        forall|i: int|
            0 <= i < filter::passing(tasks, filter, n).len() ==> (#[trigger] filter::passing(
                tasks,
                filter,
                n,
            )[i]) < n,
        filter::passing(tasks, filter, n).len() <= n,
    decreases n,
{
    if n > 0 {
        lemma_passing_in_range(tasks, filter, (n - 1) as nat);
    }
}

} // verus!
