//! The collaborators a task sees while being polled: the poll outcome type,
//! the waker capability, and the context that injects a monotonic clock and a
//! side-effect sink.

use vstd::prelude::*;

verus! {

/// Outcome of a single poll: the task either completed with a value or is not
/// ready yet.
pub enum Poll<T> {
    Ready(T),
    Pending,
}

/// One side effect recorded in the sink: either a plain log message or a
/// progress report from a bounded-work task.
#[derive(Debug)]
pub enum Event {
    Message { text: String },
    Progress { id: u64, remaining: u64 },
}

/// Mathematical model of an `Event`.
pub enum EventModel {
    Message { text: Seq<char> },
    Progress { id: u64, remaining: u64 },
}

impl View for Event {
    type V = EventModel;

    open spec fn view(&self) -> EventModel {
        match self {
            Event::Message { text } => EventModel::Message { text: text@ },
            Event::Progress { id, remaining } => EventModel::Progress {
                id: *id,
                remaining: *remaining,
            },
        }
    }
}

/// Capability a task uses to tell the scheduler it is runnable again. Its
/// whole state is one flag, so waking is idempotent: however many times a
/// task calls `wake` before the next poll, the scheduler sees one runnable
/// mark, never a duplicate entry.
pub struct Waker {
    woken: bool,
}

impl Waker {
    pub closed spec fn is_woken(&self) -> bool {
        self.woken
    }

    /// The state a waker has after `wake`: woken, whatever it was before.
    pub closed spec fn waked(self) -> Waker {
        Waker { woken: true }
    }

    pub fn new() -> (w: Waker)
        ensures
            !w.is_woken(),
    {
        Waker { woken: false }
    }

    /// Whether a wake call has been recorded since this waker was created.
    pub fn woken(&self) -> (b: bool)
        ensures
            b == self.is_woken(),
    {
        self.woken
    }

    pub fn wake(&mut self)
        ensures
            *final(self) == old(self).waked(),
            final(self).is_woken(),
    {
        self.woken = true;
    }
}

/// Waking is idempotent: a second `wake` before the next poll leaves the
/// waker exactly as the first one did, so a task is never scheduled twice
/// for one round of wake calls.
pub proof fn lemma_wake_idempotent(w: Waker)
    ensures
        w.waked().waked() == w.waked(),
        w.waked().is_woken(),
{
}

/// The capabilities injected into every poll: a monotonic clock and a
/// side-effect sink that records emitted events in order.
pub struct Ctx {
    now: u64,
    sink: Vec<Event>,
}

impl Ctx {
    /// The clock's current reading.
    pub closed spec fn time(&self) -> u64 {
        self.now
    }

    /// Everything emitted so far, oldest first.
    pub closed spec fn sink(&self) -> Seq<EventModel> {
        self.sink@.map_values(|e: Event| e@)
    }

    pub fn new(start: u64) -> (c: Ctx)
        ensures
            c.time() == start,
            c.sink() == Seq::<EventModel>::empty(),
    {
        let c = Ctx { now: start, sink: Vec::new() };
        proof {
            assert(c.sink() =~= Seq::<EventModel>::empty());
        }
        c
    }

    pub fn now(&self) -> (t: u64)
        ensures
            t == self.time(),
    {
        self.now
    }

    /// Moves the clock forward; the sink is untouched.
    pub fn advance(&mut self, d: u64)
        requires
            old(self).time() + d <= u64::MAX,
        ensures
            final(self).time() == old(self).time() + d,
            final(self).sink() == old(self).sink(),
    {
        self.now = self.now + d;
    }

    /// Records one event at the end of the sink; the clock is untouched.
    pub fn emit(&mut self, e: Event)
        ensures
            final(self).time() == old(self).time(),
            final(self).sink() == old(self).sink().push(e@),
    {
        let ghost before = self.sink@;
        self.sink.push(e);
        proof {
            assert(self.sink() =~= old(self).sink().push(e@)) by {
                assert(self.sink@ == before.push(e));
            }
        }
    }

    /// The recorded events, for a consumer that drains the sink.
    pub fn events(&self) -> (r: &Vec<Event>)
        ensures
            r@.map_values(|e: Event| e@) == self.sink(),
    {
        &self.sink
    }
}

} // verus!
