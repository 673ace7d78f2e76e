//! Lazy value sequences: a stream unfolds values from a seed and a step
//! function, `take` bounds it, and `for_each` folds it into a single task
//! that drives one side-effecting task per produced value.

use vstd::prelude::*;
use vstd::multiset::Multiset;
use crate::context::{Ctx, EventModel, Poll, Waker};
use crate::task::{lemma_add_empty, lemma_sub_self, Task};
use crate::combinators::lemma_add_sub_pairs;

verus! {

/// A lazy, possibly infinite sequence of values: each `next` call either
/// produces the next value or declares the stream exhausted.
pub trait Stream: Sized {
    type Item;

    /// The stream's internal invariant.
    spec fn wf(&self) -> bool;

    /// Whether the sequence has ended: an exhausted stream yields nothing,
    /// ever again.
    spec fn exhausted(&self) -> bool;

    /// The stream's step relation: from this state, one `next` call may
    /// yield `v` and leave the stream in state `after`.
    spec fn can_yield(&self, v: Self::Item, after: Self) -> bool;

    fn next(&mut self) -> (r: Option<Self::Item>)
        requires
            old(self).wf(),
        ensures
            final(self).wf(),
            r is None ==> final(self).exhausted(),
            old(self).exhausted() ==> (r is None && final(self).exhausted()),
            r matches Some(v) ==> (old(self).can_yield(v, *final(self)) && !old(
                self,
            ).exhausted()),
    ;
}

/// The stream of a seed and a step function: each `next` feeds the current
/// state to the step, yields the produced value and keeps the successor
/// state; a `None` from the step ends the sequence for good.
#[verifier::reject_recursive_types(S)]
#[verifier::reject_recursive_types(V)]
pub struct Unfold<S: Copy, V, F: Fn(S) -> Option<(V, S)>> {
    pub state: S,
    pub alive: bool,
    pub step: F,
}

impl<S: Copy, V, F: Fn(S) -> Option<(V, S)>> Stream for Unfold<S, V, F> {
    type Item = V;

    open spec fn wf(&self) -> bool {
        forall|s: S| #[trigger] call_requires(self.step, (s,))
    }

    open spec fn exhausted(&self) -> bool {
        !self.alive
    }

    open spec fn can_yield(&self, v: V, after: Self) -> bool {
        &&& self.alive
        &&& after.alive
        &&& after.step == self.step
        &&& call_ensures(self.step, (self.state,), Some((v, after.state)))
    }

    fn next(&mut self) -> (r: Option<V>)
        ensures
            final(self).step == old(self).step,
            !old(self).alive ==> (r is None && *final(self) == *old(self)),
            old(self).alive && r is Some ==> (final(self).alive && call_ensures(
                old(self).step,
                (old(self).state,),
                Some((r->0, final(self).state)),
            )),
            old(self).alive && r is None ==> (!final(self).alive && call_ensures(
                old(self).step,
                (old(self).state,),
                None::<(V, S)>,
            )),
    {
        if !self.alive {
            return None;
        }
        match (self.step)(self.state) {
            Some(p) => {
                let (v, s2) = p;
                self.state = s2;
                Some(v)
            },
            None => {
                self.alive = false;
                None
            },
        }
    }
}

/// `unfold(seed, step)`: the lazy sequence that `step` produces from `seed`,
/// restartable only by reconstructing it from the seed.
pub fn unfold<S: Copy, V, F: Fn(S) -> Option<(V, S)>>(seed: S, step: F) -> (r: Unfold<S, V, F>)
    requires
        forall|s: S| #[trigger] call_requires(step, (s,)),
    ensures
        r == (Unfold { state: seed, alive: true, step }),
        r.wf(),
{
    Unfold { state: seed, alive: true, step }
}

/// Bounds a stream to at most a fixed number of produced values.
pub struct Take<St: Stream> {
    pub inner: St,
    pub remaining: u64,
}

impl<St: Stream> Stream for Take<St> {
    type Item = St::Item;

    open spec fn wf(&self) -> bool {
        self.inner.wf()
    }

    open spec fn exhausted(&self) -> bool {
        self.remaining == 0 || self.inner.exhausted()
    }

    open spec fn can_yield(&self, v: St::Item, after: Self) -> bool {
        &&& self.remaining > 0
        &&& after.remaining == self.remaining - 1
        &&& self.inner.can_yield(v, after.inner)
    }

    fn next(&mut self) -> (r: Option<St::Item>)
        ensures
            old(self).remaining == 0 ==> (r is None && *final(self) == *old(self)),
            old(self).remaining > 0 ==> final(self).remaining == old(self).remaining - 1,
    {
        if self.remaining == 0 {
            return None;
        }
        self.remaining = self.remaining - 1;
        self.inner.next()
    }
}

/// `take(stream, n)`: at most the first `n` values of the stream.
pub fn take<St: Stream>(inner: St, n: u64) -> (r: Take<St>)
    ensures
        r == (Take { inner, remaining: n }),
{
    Take { inner, remaining: n }
}

/// The fibonacci sequence as a stream: each `next` yields the current number
/// and steps the pair of consecutive numbers forward, ending only when the
/// next number no longer fits the word size.
pub struct Fibonacci {
    pub curr: u64,
    pub next_val: u64,
}

impl Stream for Fibonacci {
    type Item = u64;

    open spec fn wf(&self) -> bool {
        true
    }

    open spec fn exhausted(&self) -> bool {
        self.curr + self.next_val > u64::MAX
    }

    open spec fn can_yield(&self, v: u64, after: Self) -> bool {
        &&& self.curr + self.next_val <= u64::MAX
        &&& v == self.curr
        &&& after.curr == self.next_val
        &&& after.next_val == self.curr + self.next_val
    }

    fn next(&mut self) -> (r: Option<u64>)
        ensures
            old(self).curr + old(self).next_val <= u64::MAX ==> (r == Some(old(self).curr)
                && final(self).curr == old(self).next_val && final(self).next_val == old(
                self,
            ).curr + old(self).next_val),
            old(self).curr + old(self).next_val > u64::MAX ==> (r is None && *final(self) == *old(
                self,
            )),
    {
        if self.curr <= u64::MAX - self.next_val {
            let v = self.curr;
            let n2 = self.curr + self.next_val;
            self.curr = self.next_val;
            self.next_val = n2;
            Some(v)
        } else {
            None
        }
    }
}

/// The fibonacci stream seeded with the pair of ones.
pub fn fibonacci() -> (r: Fibonacci)
    ensures
        r == (Fibonacci { curr: 1u64, next_val: 1u64 }),
{
    Fibonacci { curr: 1, next_val: 1 }
}

/// `for_each(stream, make)`: one task that pulls each value of the stream in
/// order, drives the task `make` builds for it to completion, and completes
/// `Ok(())` once the stream is exhausted; a failing element task fails the
/// whole fold with that error.
#[verifier::reject_recursive_types(T)]
pub struct ForEach<St: Stream, T: Task<Value = ()>, G: Fn(St::Item) -> T> {
    pub stream: St,
    pub make: G,
    pub current: Option<T>,
    pub finished: bool,
    pub past_emits: Ghost<Multiset<EventModel>>,
}

impl<St: Stream, T: Task<Value = ()>, G: Fn(St::Item) -> T> Task for ForEach<St, T, G> {
    type Value = ();

    type Error = T::Error;

    open spec fn wf(&self) -> bool {
        &&& self.stream.wf()
        &&& (self.current matches Some(t) ==> (t.wf() && !t.done()))
        &&& forall|it: St::Item| #[trigger] call_requires(self.make, (it,))
        &&& forall|it: St::Item, t: T|
            #[trigger] call_ensures(self.make, (it,), t) ==> (t.wf() && !t.done() && t.emitted()
                == Multiset::<EventModel>::empty())
    }

    open spec fn done(&self) -> bool {
        self.finished
    }

    open spec fn resolves(&self, r: Result<(), T::Error>) -> bool {
        if self.finished {
            false
        } else {
            ||| r == Result::<(), T::Error>::Ok(())
            ||| (r is Err && ((self.current is Some && self.current->0.resolves(
                Result::<(), T::Error>::Err(r->Err_0),
            )) || exists|it: St::Item, t: T|
                #[trigger] call_ensures(self.make, (it,), t) && t.resolves(
                    Result::<(), T::Error>::Err(r->Err_0),
                )))
        }
    }

    open spec fn emitted(&self) -> Multiset<EventModel> {
        self.past_emits@.add(
            match self.current {
                Some(t) => t.emitted(),
                None => Multiset::empty(),
            },
        )
    }

    open spec fn may_finish_emitting(&self, total: Multiset<EventModel>) -> bool {
        self.emitted().subset_of(total)
    }

    open spec fn must_complete_now(&self, now: u64) -> bool {
        self.current is None && self.stream.exhausted()
    }

    fn poll(&mut self, ctx: &mut Ctx, w: &mut Waker) -> (r: Poll<Result<(), T::Error>>)
        ensures
            // the fold completes cleanly only by draining the stream
            (r matches Poll::Ready(res) ==> (res is Ok ==> final(self).stream.exhausted())),
            // a failure is the current element task's failure
            (r matches Poll::Ready(res) ==> (res is Err ==> (old(self).current is Some && old(
                self,
            ).current->0.resolves(Result::<(), T::Error>::Err(res->Err_0))))),
            // a pending poll with no element task in hand has pulled one
            (old(self).current is None && r is Pending ==> final(self).current is Some),
    {
        if self.current.is_none() {
            match self.stream.next() {
                None => {
                    self.finished = true;
                    proof {
                        lemma_sub_self(self.emitted());
                        lemma_add_empty(ctx.sink().to_multiset());
                    }
                    Poll::Ready(Ok(()))
                },
                Some(v) => {
                    let t = (self.make)(v);
                    self.current = Some(t);
                    w.wake();
                    proof {
                        lemma_add_empty(old(self).past_emits@);
                        lemma_sub_self(self.emitted());
                        lemma_add_empty(ctx.sink().to_multiset());
                        assert(self.emitted() =~= old(self).emitted());
                    }
                    Poll::Pending
                },
            }
        } else {
            let mut t = self.current.take().unwrap();
            let ghost t_pre = t;
            let r = t.poll(ctx, w);
            proof {
                lemma_add_sub_pairs(
                    old(self).past_emits@,
                    old(self).past_emits@,
                    t_pre.emitted(),
                    t.emitted(),
                );
                lemma_sub_self(old(self).past_emits@);
                lemma_add_empty(t.emitted().sub(t_pre.emitted()));
                assert(Multiset::<EventModel>::empty().add(t.emitted().sub(t_pre.emitted()))
                    == t.emitted().sub(t_pre.emitted()));
            }
            match r {
                Poll::Pending => {
                    self.current = Some(t);
                    Poll::Pending
                },
                Poll::Ready(res) => {
                    proof {
                        self.past_emits@ = self.past_emits@.add(t.emitted());
                    }
                    match res {
                        Ok(_) => {
                            self.current = None;
                            w.wake();
                            proof {
                                lemma_add_empty(self.past_emits@);
                                assert(self.emitted() =~= old(self).past_emits@.add(t.emitted()));
                            }
                            Poll::Pending
                        },
                        Err(e) => {
                            self.finished = true;
                            self.current = None;
                            proof {
                                lemma_add_empty(self.past_emits@);
                                assert(self.emitted() =~= old(self).past_emits@.add(t.emitted()));
                            }
                            Poll::Ready(Err(e))
                        },
                    }
                },
            }
        }
    }
}

/// Folds a stream into one task that drives `make`'s task for every value.
pub fn for_each<St: Stream, T: Task<Value = ()>, G: Fn(St::Item) -> T>(stream: St, make: G) -> (r:
    ForEach<St, T, G>)
    ensures
        r == (ForEach {
            stream,
            make,
            current: None::<T>,
            finished: false,
            past_emits: Ghost(Multiset::<EventModel>::empty()),
        }),
{
    ForEach { stream, make, current: None, finished: false, past_emits: Ghost(Multiset::empty()) }
}

/// The bounded fibonacci scenario, as a theorem of the step relations: from
/// the stream `take(fibonacci(), 5)`, any five successive yields are exactly
/// 1, 1, 2, 3, 5, and the stream is then exhausted.
pub proof fn lemma_fibonacci_take_five(
    s0: Take<Fibonacci>,
    v1: u64,
    s1: Take<Fibonacci>,
    v2: u64,
    s2: Take<Fibonacci>,
    v3: u64,
    s3: Take<Fibonacci>,
    v4: u64,
    s4: Take<Fibonacci>,
    v5: u64,
    s5: Take<Fibonacci>,
)
    requires
        s0 == (Take { inner: Fibonacci { curr: 1u64, next_val: 1u64 }, remaining: 5u64 }),
        s0.can_yield(v1, s1),
        s1.can_yield(v2, s2),
        s2.can_yield(v3, s3),
        s3.can_yield(v4, s4),
        s4.can_yield(v5, s5),
    ensures
        v1 == 1,
        v2 == 1,
        v3 == 2,
        v4 == 3,
        v5 == 5,
        s5.exhausted(),
{
}

} // verus!
