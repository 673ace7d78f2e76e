//! The executor: owns a run queue of submitted root tasks and polls runnable
//! tasks until every one has completed or stalled.

use vstd::prelude::*;
use vstd::multiset::Multiset;
use crate::context::{Ctx, EventModel, Poll, Waker};
use crate::task::{lemma_add_empty, MyTask, Task};
use crate::combinators::{lemma_add_assoc, lemma_prefix_trans};

verus! {

broadcast use vstd::multiset::group_multiset_axioms, vstd::seq_lib::group_to_multiset_ensures;

/// Everything a sequence of tasks has emitted, taken together.
pub open spec fn emitted_sum<T: Task>(s: Seq<T>) -> Multiset<EventModel>
    decreases s.len(),
{
    if s.len() == 0 {
        Multiset::empty()
    } else {
        emitted_sum(s.drop_last()).add(s.last().emitted())
    }
}

/// Replacing one task changes the total emissions by exactly the difference
/// between the new and the old entry.
proof fn lemma_emitted_sum_update<T: Task>(s: Seq<T>, i: int, t: T)
    requires
        0 <= i < s.len(),
    ensures
        emitted_sum(s.update(i, t)).add(s[i].emitted()) == emitted_sum(s).add(t.emitted()),
    decreases s.len(),
{
    let s2 = s.update(i, t);
    if i == s.len() - 1 {
        assert(s2.drop_last() =~= s.drop_last());
        assert(s2.last() == t);
        assert(emitted_sum(s2).add(s[i].emitted()) =~= emitted_sum(s).add(t.emitted()));
    } else {
        assert(s.len() > 1);
        assert(s2.drop_last() =~= s.drop_last().update(i, t));
        assert(s2.last() == s.last());
        assert(s.drop_last()[i] == s[i]);
        lemma_emitted_sum_update(s.drop_last(), i, t);
        assert(emitted_sum(s2) == emitted_sum(s.drop_last().update(i, t)).add(s.last().emitted()));
        assert(emitted_sum(s) == emitted_sum(s.drop_last()).add(s.last().emitted()));
        assert forall|v: EventModel| true implies emitted_sum(s2).add(s[i].emitted()).count(v)
            == emitted_sum(s).add(t.emitted()).count(v) by {
            assert(emitted_sum(s.drop_last().update(i, t)).add(s.drop_last()[i].emitted()).count(v)
                == emitted_sum(s.drop_last()).add(t.emitted()).count(v));
        }
        assert(emitted_sum(s2).add(s[i].emitted()) =~= emitted_sum(s).add(t.emitted()));
    }
}

/// A subset plus its complement restores the whole.
pub proof fn lemma_sub_add_restore<V>(a: Multiset<V>, b: Multiset<V>)
    requires
        a.subset_of(b),
    ensures
        a.add(b.sub(a)) == b,
{
    assert(a.add(b.sub(a)) =~= b);
}

/// Drives submitted tasks to completion: a run queue of runnable marks over
/// the submitted tasks, polled one at a time until none is runnable.
pub struct Executor<T: Task> {
    pub tasks: Vec<T>,
    pub runnable: Vec<bool>,
    pub results: Vec<Option<Result<T::Value, T::Error>>>,
}

impl<T: Task> Executor<T> {
    pub open spec fn wf(&self) -> bool {
        &&& self.runnable@.len() == self.tasks@.len()
        &&& self.results@.len() == self.tasks@.len()
        &&& forall|i| 0 <= i < self.tasks@.len() ==> (#[trigger] self.tasks@[i]).wf()
        &&& forall|i|
            0 <= i < self.tasks@.len() ==> ((#[trigger] self.results@[i]) is Some
                <==> self.tasks@[i].done())
        &&& forall|i|
            0 <= i < self.tasks@.len() ==> ((#[trigger] self.runnable@[i])
                ==> !self.tasks@[i].done())
    }

    pub fn new() -> (e: Executor<T>)
        ensures
            e.wf(),
            e.tasks@.len() == 0,
    {
        Executor { tasks: Vec::new(), runnable: Vec::new(), results: Vec::new() }
    }

    /// Hands a root task to the scheduler; ownership transfers here. The
    /// returned handle indexes the task's slot and eventual result.
    pub fn submit(&mut self, t: T) -> (h: usize)
        requires
            old(self).wf(),
            t.wf(),
            !t.done(),
        ensures
            final(self).wf(),
            final(self).tasks@ == old(self).tasks@.push(t),
            final(self).runnable@ == old(self).runnable@.push(true),
            final(self).results@ == old(self).results@.push(
                None::<Result<T::Value, T::Error>>,
            ),
            h == old(self).tasks@.len(),
    {
        let h = self.tasks.len();
        self.tasks.push(t);
        self.runnable.push(true);
        self.results.push(None);
        h
    }

    /// The result recorded for a completed task.
    pub fn result_of(&self, h: usize) -> (r: &Option<Result<T::Value, T::Error>>)
        requires
            h < self.results@.len(),
        ensures
            r == self.results@[h as int],
    {
        &self.results[h]
    }

    /// Polls runnable tasks until none is left runnable — every submitted
    /// task has then completed, or has stalled by pending without waking —
    /// or until `fuel` rounds have been spent. One round polls, once, every
    /// task that is runnable when its turn comes. The result says which way
    /// the call ended: `true` means the run queue drained. A task chain that
    /// never completes would otherwise hold this call forever; the fuel
    /// bounds one call, and the caller may simply call again.
    ///
    /// What a run guarantees:
    /// - the clock is never touched; the sink only grows, by exactly the
    ///   tasks' new emissions, taken as a multiset;
    /// - with any fuel at all, a task that was runnable and obliged to
    ///   complete at the current time has completed — a run is never a no-op
    ///   while obliged work is queued;
    /// - a task that completed during the run has emitted, in total, one of
    ///   the emission multisets its starting state allowed;
    /// - a recorded result is one the task's starting state could resolve to;
    ///   results recorded earlier are untouched.
    pub fn run_until_complete(&mut self, ctx: &mut Ctx, fuel: usize) -> (finished: bool)
        requires
            old(self).wf(),
        ensures
            final(self).wf(),
            final(self).tasks@.len() == old(self).tasks@.len(),
            final(ctx).time() == old(ctx).time(),
            old(ctx).sink().is_prefix_of(final(ctx).sink()),
            forall|i|
                0 <= i < old(self).tasks@.len() ==> (#[trigger] old(
                    self,
                ).tasks@[i].emitted()).subset_of(final(self).tasks@[i].emitted()),
            final(ctx).sink().to_multiset().add(emitted_sum(old(self).tasks@)) == old(
                ctx,
            ).sink().to_multiset().add(emitted_sum(final(self).tasks@)),
            finished ==> forall|i|
                0 <= i < old(self).tasks@.len() && !(#[trigger] final(self).tasks@[i].done())
                    ==> !final(self).runnable@[i],
            finished ==> forall|i|
                0 <= i < old(self).tasks@.len() && old(self).runnable@[i] && old(
                    self,
                ).tasks@[i].must_complete_now(old(ctx).time()) ==> (#[trigger] final(self).tasks@[i]).done(),
            fuel >= 1 ==> forall|i|
                0 <= i < old(self).tasks@.len() && old(self).runnable@[i] && old(
                    self,
                ).tasks@[i].must_complete_now(old(ctx).time()) ==> (#[trigger] final(self).tasks@[i]).done(),
            forall|i|
                0 <= i < old(self).tasks@.len() && (#[trigger] final(self).tasks@[i].done())
                    && !old(self).tasks@[i].done() ==> old(self).tasks@[i].may_finish_emitting(
                    final(self).tasks@[i].emitted(),
                ),
            forall|i, rr|
                0 <= i < old(self).tasks@.len() && (#[trigger] final(self).tasks@[i].resolves(
                    rr,
                )) ==> old(self).tasks@[i].resolves(rr),
            forall|i|
                0 <= i < old(self).tasks@.len() && (#[trigger] old(self).results@[i]) is Some
                    ==> final(self).results@[i] == old(self).results@[i],
            forall|i|
                0 <= i < old(self).tasks@.len() && old(self).results@[i] is None && (
                #[trigger] final(self).results@[i]) is Some ==> old(self).tasks@[i].resolves(
                    final(self).results@[i]->0,
                ),
    {
        let ghost t0 = self.tasks@;
        let ghost r0 = self.runnable@;
        let ghost res0 = self.results@;
        let ghost s0 = ctx.sink();
        let ghost now0 = ctx.time();
        let mut fuel_left = fuel;
        let mut drained = false;
        loop
            invariant_except_break
                !drained,
            invariant
                self.wf(),
                self.tasks@.len() == t0.len(),
                ctx.time() == now0,
                s0.is_prefix_of(ctx.sink()),
                forall|i|
                    0 <= i < t0.len() ==> (#[trigger] t0[i].emitted()).subset_of(
                        self.tasks@[i].emitted(),
                    ),
                ctx.sink().to_multiset().add(emitted_sum(t0)) == s0.to_multiset().add(
                    emitted_sum(self.tasks@),
                ),
                forall|i|
                    0 <= i < t0.len() && r0[i] && t0[i].must_complete_now(now0) ==> ((
                    #[trigger] self.tasks@[i]).done() || (self.runnable@[i] && self.tasks@[i]
                        == t0[i])),
                forall|i|
                    0 <= i < t0.len() && (#[trigger] self.tasks@[i].done()) && !t0[i].done()
                        ==> t0[i].may_finish_emitting(self.tasks@[i].emitted()),
                forall|i, rr|
                    0 <= i < t0.len() && (#[trigger] self.tasks@[i].resolves(rr)) ==> t0[i].resolves(
                        rr,
                    ),
                forall|i, m|
                    0 <= i < t0.len() && !(#[trigger] self.tasks@[i]).done()
                        && #[trigger] self.tasks@[i].may_finish_emitting(m)
                        ==> t0[i].may_finish_emitting(m),
                forall|i|
                    0 <= i < t0.len() && (#[trigger] res0[i]) is Some ==> self.results@[i]
                        == res0[i],
                forall|i|
                    0 <= i < t0.len() && res0[i] is None && (#[trigger] self.results@[i]) is Some
                        ==> t0[i].resolves(self.results@[i]->0),
                fuel_left <= fuel,
                fuel_left < fuel ==> forall|i|
                    0 <= i < t0.len() && r0[i] && t0[i].must_complete_now(now0) ==> (
                    #[trigger] self.tasks@[i]).done(),
            ensures
                self.wf(),
                self.tasks@.len() == t0.len(),
                ctx.time() == now0,
                s0.is_prefix_of(ctx.sink()),
                forall|i|
                    0 <= i < t0.len() ==> (#[trigger] t0[i].emitted()).subset_of(
                        self.tasks@[i].emitted(),
                    ),
                ctx.sink().to_multiset().add(emitted_sum(t0)) == s0.to_multiset().add(
                    emitted_sum(self.tasks@),
                ),
                forall|i|
                    0 <= i < t0.len() && r0[i] && t0[i].must_complete_now(now0) ==> ((
                    #[trigger] self.tasks@[i]).done() || (self.runnable@[i] && self.tasks@[i]
                        == t0[i])),
                forall|i|
                    0 <= i < t0.len() && (#[trigger] self.tasks@[i].done()) && !t0[i].done()
                        ==> t0[i].may_finish_emitting(self.tasks@[i].emitted()),
                forall|i, rr|
                    0 <= i < t0.len() && (#[trigger] self.tasks@[i].resolves(rr)) ==> t0[i].resolves(
                        rr,
                    ),
                forall|i|
                    0 <= i < t0.len() && (#[trigger] res0[i]) is Some ==> self.results@[i]
                        == res0[i],
                forall|i|
                    0 <= i < t0.len() && res0[i] is None && (#[trigger] self.results@[i]) is Some
                        ==> t0[i].resolves(self.results@[i]->0),
                drained ==> forall|i| 0 <= i < t0.len() ==> !(#[trigger] self.runnable@[i]),
                fuel >= 1 ==> forall|i|
                    0 <= i < t0.len() && r0[i] && t0[i].must_complete_now(now0) ==> (
                    #[trigger] self.tasks@[i]).done(),
            decreases fuel_left,
        {
            // find a runnable task
            if fuel_left == 0 {
                break ;
            }
            fuel_left = fuel_left - 1;
            let mut idx: usize = 0;
            let mut found = false;
            let n = self.tasks.len();
            while idx < n && !found
                invariant
                    n == self.tasks@.len(),
                    self.runnable@.len() == n,
                    idx <= n,
                    found ==> idx < n && self.runnable@[idx as int],
                    !found ==> forall|j| 0 <= j < idx ==> !(#[trigger] self.runnable@[j]),
                decreases n - idx + (if found { 0int } else { 1int }),
            {
                if self.runnable[idx] {
                    found = true;
                } else {
                    idx = idx + 1;
                }
            }
            if !found {
                drained = true;
                break ;
            }
            // one round: poll every task that is runnable when its turn comes
            let ghost rt = self.tasks@;
            let ghost rdy = self.runnable@;
            let mut at: usize = 0;
            while at < n
                invariant
                    self.wf(),
                    n == self.tasks@.len(),
                    self.tasks@.len() == t0.len(),
                    at <= n,
                    ctx.time() == now0,
                    s0.is_prefix_of(ctx.sink()),
                    forall|i|
                        0 <= i < t0.len() ==> (#[trigger] t0[i].emitted()).subset_of(
                            self.tasks@[i].emitted(),
                        ),
                    ctx.sink().to_multiset().add(emitted_sum(t0)) == s0.to_multiset().add(
                        emitted_sum(self.tasks@),
                    ),
                    forall|i|
                        0 <= i < t0.len() && (#[trigger] self.tasks@[i].done()) && !t0[i].done()
                            ==> t0[i].may_finish_emitting(self.tasks@[i].emitted()),
                    forall|i, rr2|
                        0 <= i < t0.len() && (#[trigger] self.tasks@[i].resolves(rr2))
                            ==> t0[i].resolves(rr2),
                    forall|i, m|
                        0 <= i < t0.len() && !(#[trigger] self.tasks@[i]).done()
                            && #[trigger] self.tasks@[i].may_finish_emitting(m)
                            ==> t0[i].may_finish_emitting(m),
                    forall|i|
                        0 <= i < t0.len() && (#[trigger] res0[i]) is Some ==> self.results@[i]
                            == res0[i],
                    forall|i|
                        0 <= i < t0.len() && res0[i] is None && (
                        #[trigger] self.results@[i]) is Some ==> t0[i].resolves(
                            self.results@[i]->0,
                        ),
                    rt.len() == t0.len(),
                    rdy.len() == t0.len(),
                    forall|j| at <= j < t0.len() ==> (#[trigger] self.tasks@[j]) == rt[j],
                    forall|j| at <= j < t0.len() ==> (#[trigger] self.runnable@[j]) == rdy[j],
                    forall|j|
                        0 <= j < at && rdy[j] && rt[j].must_complete_now(now0) ==> (
                        #[trigger] self.tasks@[j]).done(),
                    forall|j|
                        0 <= j < t0.len() && (#[trigger] rt[j].done()) ==> self.tasks@[j].done(),
                    forall|i|
                        0 <= i < t0.len() && r0[i] && t0[i].must_complete_now(now0) ==> ((
                        #[trigger] rt[i]).done() || (rdy[i] && rt[i] == t0[i])),
                decreases n - at,
            {
                if self.runnable[at] {
                    self.runnable.set(at, false);
                    let ghost tasks_before = self.tasks@;
                    let ghost sink_before = ctx.sink();
                    let mut t = self.tasks.remove(at);
                    let ghost t_pre = t;
                    let mut w = Waker::new();
                    let r = t.poll(ctx, &mut w);
                    match r {
                        Poll::Ready(res) => {
                            self.results.set(at, Some(res));
                        },
                        Poll::Pending => {
                            if w.woken() {
                                self.runnable.set(at, true);
                            }
                        },
                    }
                    self.tasks.insert(at, t);
                    proof {
                        assert(self.tasks@ =~= tasks_before.update(at as int, t));
                        assert forall|j| at + 1 <= j < t0.len() implies (
                        #[trigger] self.tasks@[j]) == rt[j] by {
                            assert(self.tasks@[j] == tasks_before[j]);
                        }
                        assert forall|j| at + 1 <= j < t0.len() implies (
                        #[trigger] self.runnable@[j]) == rdy[j] by {}
                        poll_step_accounting(
                            at as int,
                            tasks_before,
                            self.tasks@,
                            t_pre,
                            t,
                            s0,
                            sink_before,
                            *ctx,
                            t0,
                        );
                    }
                }
                at = at + 1;
            }
            proof {
                assert forall|i|
                    0 <= i < t0.len() && r0[i] && t0[i].must_complete_now(now0) implies (
                #[trigger] self.tasks@[i]).done() by {
                    if rt[i].done() {
                    } else {
                        assert(rdy[i] && rt[i] == t0[i]);
                    }
                }
            }
        }
        drained
    }
}

/// One poll of the task at slot `i` keeps the executor's global accounting:
/// the emission sum moves by exactly the poll's delta, and the sink's growth
/// matches it.
proof fn poll_step_accounting<T: Task>(
    i: int,
    tasks_before: Seq<T>,
    tasks_after: Seq<T>,
    t_pre: T,
    t_post: T,
    s0: Seq<EventModel>,
    sink_before: Seq<EventModel>,
    ctx: Ctx,
    t0: Seq<T>,
)
    requires
        0 <= i < tasks_before.len(),
        tasks_after == tasks_before.update(i, t_post),
        tasks_before[i] == t_pre,
        t_pre.emitted().subset_of(t_post.emitted()),
        ctx.sink().to_multiset() == sink_before.to_multiset().add(
            t_post.emitted().sub(t_pre.emitted()),
        ),
        sink_before.is_prefix_of(ctx.sink()),
        s0.is_prefix_of(sink_before),
        sink_before.to_multiset().add(emitted_sum(t0)) == s0.to_multiset().add(
            emitted_sum(tasks_before),
        ),
    ensures
        ctx.sink().to_multiset().add(emitted_sum(t0)) == s0.to_multiset().add(
            emitted_sum(tasks_after),
        ),
        s0.is_prefix_of(ctx.sink()),
{
    let told = tasks_before[i];
    let tnew = tasks_after[i];
    assert(told == t_pre);
    assert(tnew == t_post);
    lemma_emitted_sum_update(tasks_before, i, tnew);
    lemma_sub_add_restore(told.emitted(), tnew.emitted());
    // the sum moved by exactly the poll's emission delta
    let delta = tnew.emitted().sub(told.emitted());
    assert(emitted_sum(tasks_after).add(told.emitted()) == emitted_sum(tasks_before).add(
        tnew.emitted(),
    ));
    assert(emitted_sum(tasks_after) == emitted_sum(tasks_before).add(delta)) by {
        assert(emitted_sum(tasks_before).add(tnew.emitted()) =~= emitted_sum(tasks_before).add(
            delta,
        ).add(told.emitted()));
        assert(emitted_sum(tasks_after).add(told.emitted()) =~= emitted_sum(tasks_before).add(
            delta,
        ).add(told.emitted()));
        assert forall|v: EventModel| true implies emitted_sum(tasks_after).count(v)
            == emitted_sum(tasks_before).add(delta).count(v) by {
            assert(emitted_sum(tasks_after).add(told.emitted()).count(v) == emitted_sum(
                tasks_before,
            ).add(delta).add(told.emitted()).count(v));
        }
        assert(emitted_sum(tasks_after) =~= emitted_sum(tasks_before).add(delta));
    }
    assert(ctx.sink().to_multiset().add(emitted_sum(t0)) == s0.to_multiset().add(
        emitted_sum(tasks_after),
    )) by {
        assert(ctx.sink().to_multiset() == sink_before.to_multiset().add(delta));
        lemma_add_assoc(s0.to_multiset(), emitted_sum(tasks_before), delta);
        assert(sink_before.to_multiset().add(delta).add(emitted_sum(t0))
            =~= sink_before.to_multiset().add(emitted_sum(t0)).add(delta));
        assert(s0.to_multiset().add(emitted_sum(tasks_before)).add(delta)
            =~= s0.to_multiset().add(emitted_sum(tasks_before).add(delta)));
    }
    lemma_prefix_trans(s0, sink_before, ctx.sink());
}

/// A logging task for `msg` that has not yet been polled.
pub open spec fn is_fresh_log(t: MyTask, msg: Seq<char>) -> bool {
    t matches MyTask::Log { text, done } && text@ == msg && !done
}

/// One message per submitted logging task: what each final task state must
/// have emitted, taken together.
pub open spec fn message_multiset(msgs: Seq<Seq<char>>) -> Multiset<EventModel>
    decreases msgs.len(),
{
    if msgs.len() == 0 {
        Multiset::empty()
    } else {
        message_multiset(msgs.drop_last()).insert(EventModel::Message { text: msgs.last() })
    }
}

proof fn lemma_sum_all_empty<T: Task>(ts: Seq<T>)
    requires
        forall|i| 0 <= i < ts.len() ==> (#[trigger] ts[i].emitted()) == Multiset::<
            EventModel,
        >::empty(),
    ensures
        emitted_sum(ts) == Multiset::<EventModel>::empty(),
    decreases ts.len(),
{
    if ts.len() > 0 {
        lemma_sum_all_empty(ts.drop_last());
        assert(ts.last() == ts[ts.len() - 1]);
        assert(emitted_sum(ts) =~= Multiset::<EventModel>::empty());
    }
}

proof fn lemma_sum_of_singletons(ts: Seq<MyTask>, msgs: Seq<Seq<char>>)
    requires
        ts.len() == msgs.len(),
        forall|i|
            0 <= i < ts.len() ==> (#[trigger] ts[i].emitted()) == Multiset::singleton(
                EventModel::Message { text: msgs[i] },
            ),
    ensures
        emitted_sum(ts) == message_multiset(msgs),
        emitted_sum(ts).len() == msgs.len(),
    decreases ts.len(),
{
    if ts.len() > 0 {
        lemma_sum_of_singletons(ts.drop_last(), msgs.drop_last());
        assert(ts.last() == ts[ts.len() - 1]);
        assert(msgs.last() == msgs[msgs.len() - 1]);
        assert(emitted_sum(ts) =~= message_multiset(msgs));
    }
}

/// Fanning out independent logging tasks: submitting one `log` task per
/// message and running the executor to completion invokes the sink exactly
/// once per task — the sink gains exactly the multiset of the submitted
/// messages, each emitted exactly once.
pub proof fn lemma_log_fan_out(
    e0: Executor<MyTask>,
    e1: Executor<MyTask>,
    sink0: Seq<EventModel>,
    sink1: Seq<EventModel>,
    msgs: Seq<Seq<char>>,
    now: u64,
)
    requires
        e0.tasks@.len() == msgs.len(),
        // each submitted task is a fresh logging task for its message
        forall|i| 0 <= i < msgs.len() ==> is_fresh_log(#[trigger] e0.tasks@[i], msgs[i]),
        forall|i| 0 <= i < msgs.len() ==> #[trigger] e0.runnable@[i],
        // what `run_until_complete` guarantees of the run
        e1.tasks@.len() == e0.tasks@.len(),
        sink1.to_multiset().add(emitted_sum(e0.tasks@)) == sink0.to_multiset().add(
            emitted_sum(e1.tasks@),
        ),
        forall|i|
            0 <= i < e0.tasks@.len() && e0.runnable@[i] && e0.tasks@[i].must_complete_now(now)
                ==> (#[trigger] e1.tasks@[i]).done(),
        forall|i|
            0 <= i < e0.tasks@.len() && (#[trigger] e1.tasks@[i].done())
                && !e0.tasks@[i].done() ==> e0.tasks@[i].may_finish_emitting(
                e1.tasks@[i].emitted(),
            ),
    ensures
        sink1.to_multiset() == sink0.to_multiset().add(message_multiset(msgs)),
        sink1.len() == sink0.len() + msgs.len(),
{
    broadcast use vstd::multiset::group_multiset_axioms, vstd::seq_lib::group_to_multiset_ensures;

    assert forall|i| 0 <= i < msgs.len() implies (#[trigger] e1.tasks@[i]).done() by {
        assert(e0.tasks@[i].must_complete_now(now));
    }
    assert forall|i| 0 <= i < e0.tasks@.len() implies (#[trigger] e0.tasks@[i].emitted())
        == Multiset::<EventModel>::empty() by {
        assert(e0.tasks@[i] is Log);
    }
    assert forall|i| 0 <= i < e1.tasks@.len() implies (#[trigger] e1.tasks@[i].emitted())
        == Multiset::singleton(EventModel::Message { text: msgs[i] }) by {
        assert(e1.tasks@[i].done() && !e0.tasks@[i].done());
        assert(e0.tasks@[i].may_finish_emitting(e1.tasks@[i].emitted()));
    }
    lemma_sum_all_empty(e0.tasks@);
    lemma_sum_of_singletons(e1.tasks@, msgs);
    lemma_add_empty(sink1.to_multiset());
    assert(sink1.to_multiset() == sink0.to_multiset().add(message_multiset(msgs)));
    assert(sink1.to_multiset().len() == sink1.len());
    assert(sink0.to_multiset().len() == sink0.len());
}

} // verus!
