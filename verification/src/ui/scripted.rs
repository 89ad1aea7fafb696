//! A console driven by a fixed list of keypresses.

use std::collections::VecDeque;

use vstd::prelude::*;

use crate::ui::session::Call;
use crate::ui::{Console, Error, Key};

verus! {

/// What happened to a scripted console.
#[derive(Debug, PartialEq)]
pub enum Event {
    Drawn(String),
    Read(Key),
    Cleared(usize),
    /// A key was asked for when there was none left.
    RanDry,
}

impl View for Event {
    type V = Call;

    open spec fn view(&self) -> Call {
        match self {
            Event::Drawn(s) => Call::Drawn(s@),
            Event::Read(key) => Call::Read(*key),
            Event::Cleared(lines) => Call::Cleared(*lines as int),
            Event::RanDry => Call::Failed(Error::Cancelled),
        }
    }
}

/// A console that plays back a fixed list of keypresses and captures what the
/// picker draws. Lets the whole loop be exercised without a real terminal.
pub struct Scripted {
    pub keys: VecDeque<Key>,
    pub events: Vec<Event>,
    pub columns: usize,
}

impl Scripted {
    pub fn new(keys: &[Key], columns: usize) -> (r: Self)
        ensures
            r.keys@ == keys@,
            r.events@ == Seq::<Event>::empty(),
            r.columns == columns,
    {
        let mut queue: VecDeque<Key> = VecDeque::new();
        let mut i: usize = 0;
        while i < keys.len()
            invariant
                i <= keys@.len(),
                queue@ == keys@.take(i as int),
            decreases keys@.len() - i,
        {
            queue.push_back(keys[i]);
            i = i + 1;
            assert(queue@ =~= keys@.take(i as int));
        }
        assert(keys@.take(i as int) =~= keys@);
        Scripted { keys: queue, events: Vec::new(), columns }
    }
}

impl Console for Scripted {
    open spec fn pending(&self) -> Seq<Key> {
        self.keys@
    }

    open spec fn log(&self) -> Seq<Call> {
        self.events@.map_values(|e: Event| e@)
    }

    open spec fn obliging(&self) -> bool {
        true
    }

    fn width(&self) -> (r: usize)
        ensures
            r == self.columns,
    {
        self.columns
    }

    fn write(&mut self, s: &str) -> (r: Result<(), std::io::Error>) {
        self.events.push(Event::Drawn(s.to_owned()));
        assert(self.log() =~= old(self).log().push(Call::Drawn(s@)));
        Ok(())
    }

    fn clear(&mut self, lines: usize) -> (r: Result<(), std::io::Error>) {
        self.events.push(Event::Cleared(lines));
        assert(self.log() =~= old(self).log().push(Call::Cleared(lines as int)));
        Ok(())
    }

    /// Running dry cancels, so that a script that forgets to commit still ends.
    fn read_key(&mut self) -> (r: Result<Key, Error>)
        ensures
            old(self).keys@.len() == 0 ==> r matches Err(Error::Cancelled),
    {
        match self.keys.pop_front() {
            Some(key) => {
                self.events.push(Event::Read(key));
                assert(self.pending() =~= old(self).pending().drop_first());
                assert(self.log() =~= old(self).log().push(Call::Read(key)));
                Ok(key)
            },
            None => {
                self.events.push(Event::RanDry);
                assert(self.log() =~= old(self).log().push(Call::Failed(Error::Cancelled)));
                Err(Error::Cancelled)
            },
        }
    }
}

} // verus!
