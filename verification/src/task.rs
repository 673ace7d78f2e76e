//! The task abstraction and the primitive tasks: sleeping until a deadline,
//! bounded cooperative work, and logging one message.

use vstd::prelude::*;
use vstd::multiset::Multiset;
use crate::context::{Ctx, Event, EventModel, Poll, Waker};

verus! {

broadcast use vstd::multiset::group_multiset_axioms, vstd::seq_lib::group_to_multiset_ensures;

/// Adding one element and then removing the original multiset leaves exactly
/// that element.
pub proof fn lemma_insert_sub<V>(a: Multiset<V>, x: V)
    ensures
        a.insert(x).sub(a) == Multiset::singleton(x),
{
    assert(a.insert(x).sub(a) =~= Multiset::singleton(x));
}

/// Removing a multiset from itself leaves nothing.
pub proof fn lemma_sub_self<V>(a: Multiset<V>)
    ensures
        a.sub(a) == Multiset::<V>::empty(),
{
    assert(a.sub(a) =~= Multiset::<V>::empty());
}

/// The empty multiset is the unit of addition.
pub proof fn lemma_add_empty<V>(a: Multiset<V>)
    ensures
        a.add(Multiset::<V>::empty()) == a,
{
    assert(a.add(Multiset::<V>::empty()) =~= a);
}

/// A pollable unit of work: a state machine that each poll advances by a
/// bounded amount until it completes with a `Result`.
///
/// The contract every task obeys:
/// - a completed task is never polled again (`done` guards the next poll);
/// - a poll that returns `Pending` has woken the waker, so the scheduler is
///   guaranteed to poll again — a task that pends without waking stalls
///   forever, which is the caller's hazard, not the scheduler's;
/// - the value a completed poll returns is one the pre-poll state could
///   resolve to, and pending polls only narrow that set;
/// - everything the poll emits lands at the end of the context's sink, and is
///   accounted for in `emitted`;
/// - the clock is read, never written;
/// - a task whose state says it must complete at the current time (`Log`
///   always, `Sleep` once its deadline passed or when it sleeps for no time)
///   returns `Ready` on that poll.
pub trait Task: Sized {
    type Value;
    type Error;

    /// The task's internal invariant.
    spec fn wf(&self) -> bool;

    /// Whether the task has completed; a done task must not be polled.
    spec fn done(&self) -> bool;

    /// The results this state can still complete with.
    spec fn resolves(&self, r: Result<Self::Value, Self::Error>) -> bool;

    /// Everything the task has put on the sink so far.
    spec fn emitted(&self) -> Multiset<EventModel>;

    /// The total emission multisets this state can still end with.
    spec fn may_finish_emitting(&self, total: Multiset<EventModel>) -> bool;

    /// States that are obliged to complete when polled at time `now`.
    spec fn must_complete_now(&self, now: u64) -> bool;

    fn poll(&mut self, ctx: &mut Ctx, w: &mut Waker) -> (r: Poll<
        Result<Self::Value, Self::Error>,
    >)
        requires
            old(self).wf(),
            !old(self).done(),
        ensures
            final(self).wf(),
            (r is Ready) == final(self).done(),
            (r matches Poll::Ready(v) ==> old(self).resolves(v)),
            forall|v| #[trigger] final(self).resolves(v) ==> old(self).resolves(v),
            r is Pending ==> final(w).is_woken(),
            old(w).is_woken() ==> final(w).is_woken(),
            final(ctx).time() == old(ctx).time(),
            old(self).emitted().subset_of(final(self).emitted()),
            final(ctx).sink().to_multiset() == old(ctx).sink().to_multiset().add(
                final(self).emitted().sub(old(self).emitted()),
            ),
            old(ctx).sink().is_prefix_of(final(ctx).sink()),
            old(self).must_complete_now(old(ctx).time()) ==> r is Ready,
            r is Ready ==> old(self).may_finish_emitting(final(self).emitted()),
            r is Pending ==> forall|m| #[trigger] final(self).may_finish_emitting(m)
                ==> old(self).may_finish_emitting(m),
    ;
}

/// The yield granularity a bounded-work task gets by default: how many units
/// of work one poll performs before the task voluntarily yields.
pub const DEFAULT_SLICE: u64 = 1000;

/// The progress events a bounded-work task has emitted after `yields`
/// voluntary yields: one report per yield, carrying the work then remaining.
pub open spec fn work_events(id: u64, total: u64, slice: u64, yields: u64) -> Multiset<
    EventModel,
>
    decreases yields,
{
    if yields == 0 {
        Multiset::empty()
    } else {
        work_events(id, total, slice, (yields - 1) as u64).insert(
            EventModel::Progress { id, remaining: (total - yields * slice) as u64 },
        )
    }
}

/// The primitive tasks.
pub enum MyTask {
    /// Completes once the clock reaches its deadline. The deadline is fixed
    /// on the first poll, `duration` clock units ahead, and never moves.
    Sleep { duration: u64, deadline: Option<u64>, done: bool },
    /// Simulates cpu-bound work: `remaining` only ever decreases, one unit at
    /// a time, and every `slice` units the task yields with a progress
    /// report. `yields` counts the yields taken so far.
    Work { id: u64, total: u64, remaining: u64, slice: u64, yields: u64, done: bool },
    /// Emits its message once and completes on the first poll.
    Log { text: String, done: bool },
}

impl MyTask {
    pub open spec fn spec_done(&self) -> bool {
        match self {
            MyTask::Sleep { done, .. } => *done,
            MyTask::Work { done, .. } => *done,
            MyTask::Log { done, .. } => *done,
        }
    }

    pub open spec fn spec_wf(&self) -> bool {
        match self {
            MyTask::Sleep { .. } => true,
            MyTask::Log { .. } => true,
            MyTask::Work { id, total, remaining, slice, yields, done } => {
                &&& *slice >= 1
                &&& *remaining <= *total
                &&& if *done {
                    *remaining == 0
                } else {
                    &&& *total - *remaining == *yields * *slice
                    &&& (*remaining > 0 || (*total == 0 && *yields == 0))
                }
            },
        }
    }

    /// How many yields a work task takes in total before completing.
    pub open spec fn final_yields(total: u64, slice: u64) -> u64 {
        if total == 0 {
            0
        } else {
            (((total - 1) as u64) / slice) as u64
        }
    }
}

impl Task for MyTask {
    type Value = ();

    type Error = ();

    open spec fn wf(&self) -> bool {
        self.spec_wf()
    }

    open spec fn done(&self) -> bool {
        self.spec_done()
    }

    open spec fn resolves(&self, r: Result<(), ()>) -> bool {
        r == Result::<(), ()>::Ok(())
    }

    open spec fn emitted(&self) -> Multiset<EventModel> {
        match self {
            MyTask::Sleep { .. } => Multiset::empty(),
            MyTask::Log { text, done } => if *done {
                Multiset::singleton(EventModel::Message { text: text@ })
            } else {
                Multiset::empty()
            },
            MyTask::Work { id, total, slice, yields, .. } => work_events(
                *id,
                *total,
                *slice,
                *yields,
            ),
        }
    }

    open spec fn may_finish_emitting(&self, total: Multiset<EventModel>) -> bool {
        match self {
            MyTask::Sleep { .. } => total == Multiset::<EventModel>::empty(),
            MyTask::Log { text, .. } => total == Multiset::singleton(
                EventModel::Message { text: text@ },
            ),
            MyTask::Work { id, total: t, slice, .. } => total == work_events(
                *id,
                *t,
                *slice,
                MyTask::final_yields(*t, *slice),
            ),
        }
    }

    open spec fn must_complete_now(&self, now: u64) -> bool {
        match self {
            MyTask::Sleep { duration, deadline, .. } => match deadline {
                Some(d) => now >= *d,
                None => *duration == 0,
            },
            MyTask::Log { .. } => true,
            MyTask::Work { remaining, slice, .. } => *remaining <= *slice,
        }
    }

    fn poll(&mut self, ctx: &mut Ctx, w: &mut Waker) -> (r: Poll<Result<(), ()>>)
        ensures
            // a poll never changes which task this is, nor its immutable fields
            (*old(self) matches MyTask::Sleep { .. } ==> final(ctx).sink() == old(ctx).sink()),
            (*old(self) matches MyTask::Sleep { duration, deadline, .. } ==> (
            *final(self) matches MyTask::Sleep { duration: d2, deadline: dl2, done: done2 }
                && d2 == duration && done2 == (r is Ready) && (deadline is Some ==> dl2
                == deadline) && (deadline is None ==> dl2 == Some(
                if old(ctx).time() + duration <= u64::MAX {
                    (old(ctx).time() + duration) as u64
                } else {
                    u64::MAX
                },
            )) && (dl2 is Some ==> (r is Ready <==> old(ctx).time() >= dl2->0)))),
            (*old(self) matches MyTask::Log { text, .. } ==> r is Ready && *final(self) == (
            MyTask::Log { text, done: true }) && final(ctx).sink() == old(ctx).sink().push(
                EventModel::Message { text: text@ },
            )),
            (*old(self) matches MyTask::Work { id, total, remaining, slice, yields, .. } ==> {
                &&& *final(self) matches MyTask::Work {
                    id: id2,
                    total: total2,
                    remaining: remaining2,
                    slice: slice2,
                    ..
                } && id2 == id && total2 == total && slice2 == slice && remaining2 <= remaining
                // polled to completion, the task has performed exactly `total`
                // decrements, however many pending yields that took
                &&& (r is Ready ==> (*final(self) matches MyTask::Work { remaining: rem3, .. }
                    && rem3 == 0))
                // a completing poll only ever had one slice of work left: the
                // task yields instead of finishing more than a slice at once
                &&& (r is Ready ==> remaining <= slice)
                // every pending poll performs exactly one slice of decrements
                // and takes exactly one more yield
                &&& (r is Pending ==> (*final(self) matches MyTask::Work {
                    remaining: rem4,
                    yields: y4,
                    ..
                } && rem4 + slice == remaining && y4 == yields + 1))
            }),
            // completing never needs the waker
            r is Ready ==> *final(w) == *old(w),
    {
        match self {
            MyTask::Sleep { duration, deadline, done } => {
                let t = ctx.now();
                proof {
                    lemma_sub_self(Multiset::<EventModel>::empty());
                    lemma_add_empty(ctx.sink().to_multiset());
                }
                let target = match deadline {
                    Some(d) => *d,
                    None => {
                        let d = match t.checked_add(*duration) {
                            Some(sum) => sum,
                            None => u64::MAX,
                        };
                        *deadline = Some(d);
                        d
                    },
                };
                if t >= target {
                    *done = true;
                    Poll::Ready(Ok(()))
                } else {
                    w.wake();
                    Poll::Pending
                }
            },
            MyTask::Log { text, done } => {
                let message = text.clone();
                ctx.emit(Event::Message { text: message });
                *done = true;
                proof {
                    lemma_insert_sub(
                        Multiset::<EventModel>::empty(),
                        EventModel::Message { text: text@ },
                    );
                    lemma_add_empty(Multiset::<EventModel>::empty());
                    assert(Multiset::<EventModel>::empty().insert(
                        EventModel::Message { text: text@ },
                    ) == Multiset::singleton(EventModel::Message { text: text@ })) by {
                        assert(Multiset::<EventModel>::empty().insert(
                            EventModel::Message { text: text@ },
                        ) =~= Multiset::singleton(EventModel::Message { text: text@ }));
                    }
                }
                Poll::Ready(Ok(()))
            },
            MyTask::Work { id, total, remaining, slice, yields, done } => {
                let ghost rem0 = *remaining;
                let mut steps: u64 = 0;
                while steps < *slice && *remaining > 0
                    invariant
                        steps <= *slice,
                        *remaining + steps == rem0,
                    decreases *remaining,
                {
                    *remaining = *remaining - 1;
                    steps = steps + 1;
                }
                if *remaining == 0 {
                    *done = true;
                    proof {
                        lemma_sub_self(work_events(*id, *total, *slice, *yields));
                        lemma_add_empty(ctx.sink().to_multiset());
                        lemma_work_final_yields(*total, *slice, *yields, rem0);
                    }
                    Poll::Ready(Ok(()))
                } else {
                    // a full slice is spent and work remains: yield control
                    proof {
                        assert(*yields * *slice + *slice == (*yields + 1) * *slice) by (nonlinear_arith);
                        assert(*yields + 1 <= (*yields + 1) * *slice) by (nonlinear_arith)
                            requires
                                *slice >= 1,
                                *yields >= 0,
                        ;
                    }
                    *yields = *yields + 1;
                    ctx.emit(Event::Progress { id: *id, remaining: *remaining });
                    w.wake();
                    proof {
                        assert(work_events(*id, *total, *slice, *yields) == work_events(
                            *id,
                            *total,
                            *slice,
                            (*yields - 1) as u64,
                        ).insert(EventModel::Progress { id: *id, remaining: *remaining }));
                        lemma_insert_sub(
                            work_events(*id, *total, *slice, (*yields - 1) as u64),
                            EventModel::Progress { id: *id, remaining: *remaining },
                        );
                    }
                    Poll::Pending
                }
            },
        }
    }
}

/// A work task that completes on this poll has taken all the yields it will
/// ever take: its emission history is already the final one.
proof fn lemma_work_final_yields(total: u64, slice: u64, yields: u64, rem0: u64)
    requires
        slice >= 1,
        rem0 <= total,
        total - rem0 == yields * slice,
        rem0 > 0 || (total == 0 && yields == 0),
        rem0 <= slice,
    ensures
        yields == MyTask::final_yields(total, slice),
{
    if total > 0 {
        let t = total as int;
        let s = slice as int;
        let y = yields as int;
        let r = rem0 as int;
        assert(r >= 1);
        assert(t - 1 == s * y + (r - 1)) by (nonlinear_arith)
            requires
                t - r == y * s,
                r >= 1,
        ;
        vstd::arithmetic::div_mod::lemma_div_multiples_vanish_fancy(y, r - 1, s);
        assert((t - 1) / s == y);
        assert(((total - 1) as u64) / slice == (t - 1) / s);
    }
}

impl MyTask {
    /// A task that completes once `duration` clock units have elapsed from
    /// its first poll.
    pub fn sleep(duration: u64) -> (t: MyTask)
        ensures
            t == (MyTask::Sleep { duration, deadline: None::<u64>, done: false }),
            t.wf(),
            !t.done(),
            t.emitted() == Multiset::<EventModel>::empty(),
    {
        MyTask::Sleep { duration, deadline: None, done: false }
    }

    /// A bounded-work task that will decrement `loops` times in all, yielding
    /// after each default-sized slice.
    pub fn task(id: u64, loops: u64) -> (t: MyTask)
        ensures
            t == (MyTask::Work {
                id,
                total: loops,
                remaining: loops,
                slice: DEFAULT_SLICE,
                yields: 0,
                done: false,
            }),
            t.wf(),
            !t.done(),
            t.emitted() == Multiset::<EventModel>::empty(),
    {
        MyTask::Work { id, total: loops, remaining: loops, slice: DEFAULT_SLICE, yields: 0, done: false }
    }

    /// A bounded-work task with an explicit yield granularity.
    pub fn task_with_slice(id: u64, loops: u64, slice: u64) -> (t: MyTask)
        requires
            slice >= 1,
        ensures
            t == (MyTask::Work { id, total: loops, remaining: loops, slice, yields: 0, done: false }),
            t.wf(),
            !t.done(),
            t.emitted() == Multiset::<EventModel>::empty(),
    {
        MyTask::Work { id, total: loops, remaining: loops, slice, yields: 0, done: false }
    }

    /// A task that logs one message and completes on its first poll.
    pub fn log(text: String) -> (t: MyTask)
        ensures
            t == (MyTask::Log { text, done: false }),
            t.wf(),
            !t.done(),
            t.emitted() == Multiset::<EventModel>::empty(),
    {
        MyTask::Log { text, done: false }
    }
}

/// Bounded work performs exactly its configured number of decrements: the
/// counter only ever decreases (an ensures of `poll`), and a completed work
/// task has driven it all the way to zero — so across however many pending
/// yields its polls took, the decrements add up to exactly the total it was
/// built with, whatever the yield granularity.
pub proof fn lemma_bounded_work_exact_decrements(t: MyTask)
    requires
        t.wf(),
        t.done(),
        t is Work,
    ensures
        t matches MyTask::Work { total, remaining, .. } ==> remaining == 0 && total - remaining
            == total,
{
}

/// A task that completes on its first poll with a result fixed at
/// construction; the simplest way to lift a plain `Result` into a task.
pub struct Immediate<V, E> {
    pub result: Option<Result<V, E>>,
}

impl<V, E> Task for Immediate<V, E> {
    type Value = V;

    type Error = E;

    open spec fn wf(&self) -> bool {
        true
    }

    open spec fn done(&self) -> bool {
        self.result is None
    }

    open spec fn resolves(&self, r: Result<V, E>) -> bool {
        self.result is Some && r == self.result->0
    }

    open spec fn emitted(&self) -> Multiset<EventModel> {
        Multiset::empty()
    }

    open spec fn may_finish_emitting(&self, total: Multiset<EventModel>) -> bool {
        total == Multiset::<EventModel>::empty()
    }

    open spec fn must_complete_now(&self, now: u64) -> bool {
        true
    }

    fn poll(&mut self, ctx: &mut Ctx, w: &mut Waker) -> (r: Poll<Result<V, E>>) {
        let res = self.result.take().unwrap();
        proof {
            lemma_sub_self(Multiset::<EventModel>::empty());
            lemma_add_empty(ctx.sink().to_multiset());
        }
        Poll::Ready(res)
    }
}

/// `ready(result)`: a task already holding its outcome.
pub fn ready<V, E>(result: Result<V, E>) -> (t: Immediate<V, E>)
    ensures
        t == (Immediate { result: Some(result) }),
        t.wf(),
        !t.done(),
        forall|r| #[trigger] t.resolves(r) <==> r == result,
{
    Immediate { result: Some(result) }
}

} // verus!
