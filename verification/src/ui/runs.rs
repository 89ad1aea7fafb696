//! What a run of the picker comes to on a console.

use vstd::prelude::*;

use crate::ui;
use crate::ui::laws;
use crate::ui::scripted::{Event, Scripted};
use crate::ui::session;
use crate::ui::session::{Call, Outcome, Prompt};
use crate::ui::{Console, Error, Key};

verus! {

/// A task that is returned is the one the keys choose, every call was made that
/// the keys call for, and the keys after the Enter that chose it are left.
pub proof fn returned_task_was_chosen<C: Console>(
    before: C,
    after: C,
    p: Prompt,
    index: usize,
)
    requires
        ui::picked(before, after, p, Ok(index)),
    ensures
        p.outcome(session::start(), before.pending()) == Some(Outcome::Chosen(index as int)),
        after.log() == before.log() + p.calls(session::start(), before.pending()),
        after.pending() == before.pending().skip(p.taken(session::start(), before.pending())),
{
}

/// An error is the cancelling that the keys call for, or it is what the last
/// call on the console failed with, and all calls before that one were called
/// for by the keys.
pub proof fn errors_have_a_cause<C: Console>(before: C, after: C, p: Prompt, e: Error)
    requires
        ui::picked(before, after, p, Err(e)),
    ensures
        ({
            let calls = p.calls(session::start(), before.pending());
            let cancelled = e is Cancelled && p.outcome(session::start(), before.pending()) == Some(
                Outcome::Cancelled,
            ) && after.log() == before.log() + calls && after.pending() == before.pending().skip(
                p.taken(session::start(), before.pending()),
            );
            let failed = after.log().len() > before.log().len() && after.log().last()
                == Call::Failed(e) && exists|n: int|
                0 <= n <= calls.len() && after.log().drop_last() == before.log()
                    + #[trigger] calls.take(n);
            cancelled || failed
        }),
{
    let calls = p.calls(session::start(), before.pending());
    if ui::broke_off(before, after, p, e) {
        let n = choose|n: int|
            0 <= n <= calls.len() && after.log() == before.log() + (#[trigger] calls.take(
                n,
            )).push(Call::Failed(e));
        assert(after.log().drop_last() =~= before.log() + calls.take(n));
    }
}

/// On a console that does not fail, the keys decide alone: the task they choose
/// is returned, and cancelling is reported. Where they run out first, the
/// failure to read one more is.
pub proof fn keys_decide_on_an_obliging_console<C: Console>(
    before: C,
    after: C,
    p: Prompt,
    r: Result<usize, Error>,
)
    requires
        ui::picked(before, after, p, r),
        before.obliging(),
    ensures
        match p.outcome(session::start(), before.pending()) {
            Some(Outcome::Chosen(index)) => r matches Ok(i) && i == index,
            Some(Outcome::Cancelled) => r matches Err(Error::Cancelled),
            None => r matches Err(e) && after.log() == before.log() + p.calls(
                session::start(),
                before.pending(),
            ).push(Call::Failed(e)),
        },
{
}

/// On a console that does not fail, typing a text and pressing Enter returns
/// the first task whose name or command holds the text.
pub proof fn typing_and_enter_returns_the_first_match<C: Console>(
    before: C,
    after: C,
    p: Prompt,
    r: Result<usize, Error>,
    t: Seq<char>,
    i: int,
)
    requires
        ui::picked(before, after, p, r),
        before.obliging(),
        p.tasks.len() <= usize::MAX,
        laws::first_match(p.tasks, t, i),
        before.pending().len() > t.len(),
        forall|k: int| 0 <= k < t.len() ==> #[trigger] before.pending()[k] == Key::Char(t[k]),
        before.pending()[t.len() as int] == Key::Enter,
    ensures
        r matches Ok(index) && index == i,
        after.pending() == before.pending().skip(t.len() as int + 1),
{
    assert(session::start().filter + t =~= t);
    laws::typing_and_enter_runs_the_first_match(p, session::start(), t, before.pending(), i);
}

/// A scripted console has the keys of its script, in order, and the calls it
/// recorded, each as what it was. It never fails before the script ends.
pub proof fn scripts_are_played_back(s: Scripted, i: int)
    requires
        0 <= i < s.events@.len(),
    ensures
        s.pending() == s.keys@,
        s.obliging(),
        s.log().len() == s.events@.len(),
        s.log()[i] == match s.events@[i] {
            Event::Drawn(t) => Call::Drawn(t@),
            Event::Read(key) => Call::Read(key),
            Event::Cleared(lines) => Call::Cleared(lines as int),
            Event::RanDry => Call::Failed(Error::Cancelled),
        },
{
}

} // verus!
