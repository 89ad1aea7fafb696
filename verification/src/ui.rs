//! A select prompt.
//!
//! The picker loop, its rendering and its filtering live here and know nothing
//! about the operating system: they talk to a terminal only through the
//! `Console` trait. Key decoding for each platform sits in a module of its own.

use vstd::prelude::*;
use vstd::string::*;

use crate::json;
use crate::json::Task;

pub mod drawing;
pub mod filter;
pub mod frame;
pub mod laws;
pub mod row;
pub mod runs;
pub mod scripted;
pub mod session;
pub mod unix;
pub mod windows;

pub use filter::{contains_ignore_ascii_case, matching};
pub use frame::{columns, render, wipe, Frame, MAX_ROWS};
pub use row::label;

use session::{Call, Outcome, Prompt};

verus! {

#[derive(Debug)]
pub enum Error {
    /// Esc or Ctrl+C.
    Cancelled,
    /// No console to draw on, e.g. stdin or stdout is redirected.
    NotInteractive,
    Io(std::io::Error),
}

impl From<std::io::Error> for Error {
    fn from(e: std::io::Error) -> (r: Self) {
        Error::Io(e)
    }
}

impl vstd::std_specs::convert::FromSpecImpl<std::io::Error> for Error {
    open spec fn obeys_from_spec() -> bool {
        true
    }

    open spec fn from_spec(e: std::io::Error) -> Self {
        Error::Io(e)
    }
}

/// What a keypress means to the picker.
///
/// Both platform modules decode into this, so the loop never sees a virtual
/// key code or an escape sequence.
#[derive(Debug, PartialEq, Eq, Structural, Clone, Copy)]
pub enum Key {
    Up,
    Down,
    Home,
    End,
    Enter,
    Cancel,
    Backspace,
    Char(char),
    Ignored,
}

/// The terminal operations the picker loop needs.
///
/// Splitting these out keeps the loop free of any call into the operating
/// system, so it can be driven by a scripted console as well as by a terminal.
///
/// What the picker does is stated in terms of the keys that a console still
/// has to give and of the calls that have been made on it. A console that is
/// not verified may leave them at the defaults, which are functions of the
/// console that nothing is known of. Nothing shows then that it meets the
/// contracts below, and what is proved of the picker holds on it as far as it
/// does.
pub trait Console: Sized {
    /// The keys that will still be read.
    open spec fn pending(&self) -> Seq<Key> {
        arbitrary::<spec_fn(Self) -> Seq<Key>>()(*self)
    }

    /// The calls so far that draw, read or erase, with what came of each.
    open spec fn log(&self) -> Seq<Call> {
        arbitrary::<spec_fn(Self) -> Seq<Call>>()(*self)
    }

    /// Whether the console never fails while there are keys left to read.
    open spec fn obliging(&self) -> bool {
        arbitrary::<spec_fn(Self) -> bool>()(*self)
    }

    fn width(&self) -> usize;

    fn write(&mut self, s: &str) -> (r: Result<(), std::io::Error>)
        ensures
            final(self).pending() == old(self).pending(),
            final(self).obliging() == old(self).obliging(),
            old(self).obliging() ==> r is Ok,
            final(self).log() == old(self).log().push(
                match r {
                    Ok(_) => Call::Drawn(s@),
                    Err(e) => Call::Failed(Error::Io(e)),
                },
            ),
    ;

    fn clear(&mut self, lines: usize) -> (r: Result<(), std::io::Error>)
        ensures
            final(self).pending() == old(self).pending(),
            final(self).obliging() == old(self).obliging(),
            old(self).obliging() ==> r is Ok,
            final(self).log() == old(self).log().push(
                match r {
                    Ok(_) => Call::Cleared(lines as int),
                    Err(e) => Call::Failed(Error::Io(e)),
                },
            ),
    ;

    fn read_key(&mut self) -> (r: Result<Key, Error>)
        ensures
            final(self).obliging() == old(self).obliging(),
            old(self).obliging() && old(self).pending().len() > 0 ==> r is Ok,
            r matches Ok(key) ==> old(self).pending().len() > 0 && key == old(self).pending()[0]
                && final(self).pending() == old(self).pending().drop_first(),
            final(self).log() == old(self).log().push(
                match r {
                    Ok(key) => Call::Read(key),
                    Err(e) => Call::Failed(e),
                },
            ),
    ;
}

/// Whether the console saw a run through: every call was made that the keys
/// call for, none failed, and the keys after the one that ends the run are
/// still there.
pub open spec fn ran_through<C: Console>(before: C, after: C, prompt: Prompt) -> bool {
    let keys = before.pending();
    &&& after.log() == before.log() + prompt.calls(session::start(), keys)
    &&& after.pending() == keys.skip(prompt.taken(session::start(), keys))
}

/// Whether a run broke off with `e`: the calls are those that the keys call
/// for up to the first that failed, which is the last.
pub open spec fn broke_off<C: Console>(before: C, after: C, prompt: Prompt, e: Error) -> bool {
    let calls = prompt.calls(session::start(), before.pending());
    exists|n: int|
        0 <= n <= calls.len() && after.log() == before.log() + (#[trigger] calls.take(n)).push(
            Call::Failed(e),
        )
}

/// What a run of the picker on a console may come to: `r` is what it returned,
/// and the console went from `before` to `after`.
pub open spec fn picked<C: Console>(
    before: C,
    after: C,
    prompt: Prompt,
    r: Result<usize, Error>,
) -> bool {
    let keys = before.pending();
    let outcome = prompt.outcome(session::start(), keys);
    &&& match r {
        Ok(index) => outcome == Some(Outcome::Chosen(index as int)) && ran_through(
            before,
            after,
            prompt,
        ),
        // An error is what the keys call for, or it is the console's own.
        Err(e) => {
            ||| e is Cancelled && outcome == Some(Outcome::Cancelled) && ran_through(
                before,
                after,
                prompt,
            )
            ||| broke_off(before, after, prompt, e)
        },
    }
    // A console that does not fail gives what the keys call for.
    &&& before.obliging() ==> match outcome {
        Some(Outcome::Chosen(index)) => r matches Ok(i) && i as int == index,
        Some(Outcome::Cancelled) => r matches Err(Error::Cancelled) && ran_through(
            before,
            after,
            prompt,
        ),
        None => r matches Err(e) && after.log() == before.log() + prompt.calls(
            session::start(),
            keys,
        ).push(Call::Failed(e)),
    }
}

/// How wide the widest of the names is, in characters.
fn name_column(tasks: &[Task]) -> (r: usize)
    ensures
        r == session::longest_name(json::task_views(tasks@), tasks@.len()),
{
    let mut widest: usize = 0;
    let mut i: usize = 0;
    while i < tasks.len()
        invariant
            i <= tasks@.len(),
            widest == session::longest_name(json::task_views(tasks@), i as nat),
        decreases tasks@.len() - i,
    {
        let len: usize = tasks[i].name.as_str().unicode_len();
        if len > widest {
            widest = len;
        }
        i = i + 1;
    }
    widest
}

/// Once the calls in `done` are made, whatever the next one comes to is logged
/// after them.
proof fn lemma_next_call(log: Seq<Call>, all: Seq<Call>, done: Seq<Call>)
    requires
        done.len() <= all.len(),
        forall|k: int| 0 <= k < done.len() ==> all[k] == done[k],
    ensures
        all.take(done.len() as int) == done,
        forall|c: Call| #[trigger] (log + done).push(c) == log + done.push(c),
{
    assert(all.take(done.len() as int) =~= done);
    assert forall|c: Call| #[trigger] (log + done).push(c) == log + done.push(c) by {
        assert((log + done).push(c) =~= log + done.push(c));
    }
}

/// The picker itself: draw a frame, read a key, repeat until the user commits
/// or cancels. Returns an index into `tasks`, not into the filtered view.
pub fn run_picker<C: Console>(term: &mut C, title: &str, tasks: &[Task]) -> (r: Result<
    usize,
    Error,
>)
    ensures
        r matches Ok(index) ==> index < tasks@.len(),
        exists|width: usize|
            #[trigger] call_ensures(C::width, (&*old(term),), width) && picked(
                *old(term),
                *final(term),
                Prompt { title: title@, tasks: json::task_views(tasks@), width: width as int },
                r,
            ),
{
    // Indices of the tasks currently passing the filter.
    let mut shown: Vec<usize> = matching(tasks, "");
    let mut filter = String::new();
    let mut cursor: usize = 0;  // position within `shown`
    let mut scroll: usize = 0;  // first visible row
    let mut painted: usize = 0;  // lines drawn last frame, so they can be cleared

    let width: usize = term.width();
    let pad: usize = name_column(tasks);

    let ghost prompt = Prompt {
        title: title@,
        tasks: json::task_views(tasks@),
        width: width as int,
    };
    let ghost mut s = session::start();
    proof {
        reveal_strlit("");
        assert(""@ =~= Seq::<char>::empty());
    }
    let ghost keys = term.pending();
    let ghost all = prompt.calls(s, keys);
    let ghost end = prompt.outcome(s, keys);
    let ghost total = prompt.taken(s, keys);
    let ghost mut done = Seq::<Call>::empty();
    let ghost mut read: int = 0;
    assert(done + all =~= all);
    assert(term.log() + done =~= term.log());
    assert(keys.skip(0) =~= keys);

    loop
        invariant
            call_ensures(C::width, (&*old(term),), width),
            prompt == (Prompt {
                title: title@,
                tasks: json::task_views(tasks@),
                width: width as int,
            }),
            pad == session::longest_name(prompt.tasks, prompt.tasks.len()),
            keys == old(term).pending(),
            all == prompt.calls(session::start(), keys),
            end == prompt.outcome(session::start(), keys),
            total == prompt.taken(session::start(), keys),
            term.obliging() == old(term).obliging(),
            s.filter == filter@,
            s.cursor == cursor,
            s.scroll == scroll,
            s.painted == painted,
            shown@ == prompt.shown(s),
            prompt.wf(s),
            term.log() == old(term).log() + done,
            0 <= read <= keys.len(),
            term.pending() == keys.skip(read),
            all == done + prompt.calls(s, term.pending()),
            end == prompt.outcome(s, term.pending()),
            total == read + prompt.taken(s, term.pending()),
        decreases term.pending().len(),
    {
        proof {
            assert(tasks.len() == prompt.tasks.len());
            session::lemma_passing_in_range(prompt.tasks, s.filter, prompt.tasks.len());
        }
        let rows: usize = if shown.len() < MAX_ROWS {
            shown.len()
        } else {
            MAX_ROWS
        };

        // Keep the cursor inside the visible window.
        if cursor < scroll {
            scroll = cursor;
        } else if rows > 0 && cursor >= scroll + rows {
            scroll = cursor + 1 - rows;
        }
        let view = Frame {
            title,
            filter: filter.as_str(),
            tasks,
            shown: shown.as_slice(),
            cursor,
            scroll,
            rows,
            pad,
            width,
            painted,
        };
        assert(view@ == prompt.frame(s));
        let (frame, lines) = render(&view);

        let ghost first = Call::Drawn(frame@);
        let ghost left = term.pending();
        let ghost log = old(term).log();
        proof {
            assert(prompt.calls(s, left)[0] == first);
            lemma_next_call(log, all, done);
            lemma_next_call(log, all, done.push(first));
        }
        match term.write(frame.as_str()) {
            Ok(_) => {},
            Err(e) => {
                return Err(Error::from(e));
            },
        }
        painted = lines;
        let ghost drawn = done.push(first);
        proof {
            s = prompt.drawn(s);
            if left.len() == 0 {
                assert(all =~= drawn);
            } else {
                let got = drawn.push(Call::Read(left[0]));
                assert(all[drawn.len() as int] == Call::Read(left[0]));
                lemma_next_call(log, all, got);
                if prompt.press(s, left[0]) is Leave {
                    let cleared = Call::Cleared(painted as int);
                    assert(all =~= got.push(cleared));
                    lemma_next_call(log, all, all);
                    assert(left.drop_first() =~= keys.skip(read + 1));
                } else {
                    let next = prompt.press(s, left[0])->Stay_0;
                    assert(all =~= got + prompt.calls(next, left.drop_first()));
                }
                done = got;
            }
        }

        match term.read_key() {
            Err(e) => {
                return Err(e);
            },
            Ok(Key::Enter) => {
                // An empty filter result has nothing under the cursor, so
                // Enter must do nothing rather than pick a stale index.
                if cursor < shown.len() {
                    let index: usize = shown[cursor];
                    match term.clear(painted) {
                        Ok(_) => {},
                        Err(e) => {
                            return Err(Error::from(e));
                        },
                    }
                    return Ok(index);
                }
            },
            Ok(Key::Cancel) => {
                match term.clear(painted) {
                    Ok(_) => {},
                    Err(e) => {
                        return Err(Error::from(e));
                    },
                }
                return Err(Error::Cancelled);
            },
            Ok(Key::Up) => {
                cursor = cursor.saturating_sub(1);
            },
            Ok(Key::Down) => {
                if cursor + 1 < shown.len() {
                    cursor = cursor + 1;
                }
            },
            Ok(Key::Home) => {
                cursor = 0;
            },
            Ok(Key::End) => {
                cursor = shown.len().saturating_sub(1);
            },
            Ok(Key::Backspace) => {
                filter.pop();
                shown = matching(tasks, filter.as_str());
                cursor = 0;
                scroll = 0;
            },
            Ok(Key::Char(c)) => {
                filter.push(c);
                shown = matching(tasks, filter.as_str());
                cursor = 0;
                scroll = 0;
            },
            Ok(Key::Ignored) => {},
        }
        proof {
            s = prompt.press(s, left[0])->Stay_0;
            read = read + 1;
            assert(left.drop_first() =~= keys.skip(read));
        }
    }
}

/// Shows `tasks` and returns the index of the chosen one. The console is only
/// acquired when there is something to show.
pub fn select<C: Console, F: FnOnce() -> Result<C, Error>>(
    title: &str,
    tasks: &[Task],
    acquire: F,
) -> (r: Result<usize, Error>)
    requires
        tasks@.len() > 0 ==> acquire.requires(()),
    ensures
        tasks@.len() == 0 ==> r matches Err(Error::Cancelled),
        r matches Ok(index) ==> index < tasks@.len(),
        tasks@.len() > 0 ==> exists|acquired: Result<C, Error>| #[trigger]
            acquire.ensures((), acquired) && match acquired {
                Err(e) => r == Err::<usize, _>(e),
                Ok(term) => exists|after: C, width: usize|
                    #![trigger call_ensures(C::width, (&term,), width), after.log()]
                    call_ensures(C::width, (&term,), width) && picked(
                        term,
                        after,
                        Prompt {
                            title: title@,
                            tasks: json::task_views(tasks@),
                            width: width as int,
                        },
                        r,
                    ),
            },
{
    if tasks.len() == 0 {
        return Err(Error::Cancelled);
    }
    match acquire() {
        Ok(term) => {
            let mut term = term;
            let ghost before = term;
            let r = run_picker(&mut term, title, tasks);
            assert(acquire.ensures((), Ok(before)));
            assert(term.log() == term.log());
            r
        },
        Err(e) => Err(e),
    }
}

} // verus!
