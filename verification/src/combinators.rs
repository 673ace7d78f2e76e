//! Adapters that build a new task from existing ones: value transform,
//! error transform, sequencing, and parallel join.

use vstd::prelude::*;
use vstd::multiset::Multiset;
use crate::context::{Ctx, EventModel, Poll, Waker};
use crate::task::{lemma_add_empty, lemma_sub_self, Task};

verus! {

broadcast use vstd::multiset::group_multiset_axioms;

/// Subtracting a common part on both sides of a union cancels it.
pub proof fn lemma_add_sub_pairs<V>(a: Multiset<V>, a2: Multiset<V>, b: Multiset<V>, b2: Multiset<
    V,
>)
    requires
        a.subset_of(a2),
        b.subset_of(b2),
    ensures
        a2.add(b2).sub(a.add(b)) == a2.sub(a).add(b2.sub(b)),
{
    assert(a2.add(b2).sub(a.add(b)) =~= a2.sub(a).add(b2.sub(b)));
}

/// Union of multisets is associative.
pub proof fn lemma_add_assoc<V>(a: Multiset<V>, b: Multiset<V>, c: Multiset<V>)
    ensures
        a.add(b).add(c) == a.add(b.add(c)),
{
    assert(a.add(b).add(c) =~= a.add(b.add(c)));
}

/// Equal unions with the same left part have equal right parts.
pub proof fn lemma_add_left_cancel<V>(a: Multiset<V>, x: Multiset<V>, y: Multiset<V>)
    requires
        a.add(x) == a.add(y),
    ensures
        x == y,
{
    assert forall|v: V| true implies x.count(v) == y.count(v) by {
        assert(a.add(x).count(v) == a.count(v) + x.count(v));
        assert(a.add(y).count(v) == a.count(v) + y.count(v));
        assert(a.add(x).count(v) == a.add(y).count(v));
    }
    assert(x =~= y);
}

/// Being a prefix is transitive.
pub proof fn lemma_prefix_trans<V>(a: Seq<V>, b: Seq<V>, c: Seq<V>)
    requires
        a.is_prefix_of(b),
        b.is_prefix_of(c),
    ensures
        a.is_prefix_of(c),
{
    assert(a =~= c.subrange(0, a.len() as int));
}

/// Transforms the value a task completes with; the error channel and the
/// pending behaviour pass through untouched.
#[verifier::reject_recursive_types(V)]
pub struct MapValue<A: Task, V, F: FnOnce(A::Value) -> V> {
    pub inner: A,
    pub f: Option<F>,
}

impl<A: Task, V, F: FnOnce(A::Value) -> V> Task for MapValue<A, V, F> {
    type Value = V;

    type Error = A::Error;

    open spec fn wf(&self) -> bool {
        &&& self.inner.wf()
        &&& !self.inner.done() ==> (self.f is Some && forall|u|
            self.inner.resolves(Result::<A::Value, A::Error>::Ok(u)) ==> #[trigger] call_requires(
                self.f->0,
                (u,),
            ))
    }

    open spec fn done(&self) -> bool {
        self.inner.done()
    }

    open spec fn resolves(&self, r: Result<V, A::Error>) -> bool {
        ||| (r is Ok && self.f is Some && exists|u|
            self.inner.resolves(Result::<A::Value, A::Error>::Ok(u)) && #[trigger] call_ensures(
                self.f->0,
                (u,),
                r->Ok_0,
            ))
        ||| (r is Err && self.inner.resolves(Result::<A::Value, A::Error>::Err(r->Err_0)))
    }

    open spec fn emitted(&self) -> Multiset<EventModel> {
        self.inner.emitted()
    }

    open spec fn may_finish_emitting(&self, total: Multiset<EventModel>) -> bool {
        self.inner.may_finish_emitting(total)
    }

    open spec fn must_complete_now(&self, now: u64) -> bool {
        self.inner.must_complete_now(now)
    }

    fn poll(&mut self, ctx: &mut Ctx, w: &mut Waker) -> (r: Poll<Result<V, A::Error>>) {
        match self.inner.poll(ctx, w) {
            Poll::Ready(res) => match res {
                Ok(u) => {
                    let g = self.f.take().unwrap();
                    let v = g(u);
                    proof {
                        map_resolves_intro(*old(self), u, v);
                    }
                    Poll::Ready(Ok(v))
                },
                Err(e) => Poll::Ready(Err(e)),
            },
            Poll::Pending => Poll::Pending,
        }
    }
}

/// One way a transformed task can complete: the inner task completes with a
/// value and the transform maps it to the composite's value.
pub proof fn map_resolves_intro<A: Task, V, F: FnOnce(A::Value) -> V>(
    m: MapValue<A, V, F>,
    u: A::Value,
    v: V,
)
    requires
        m.f is Some,
        m.inner.resolves(Result::<A::Value, A::Error>::Ok(u)),
        call_ensures(m.f->0, (u,), v),
    ensures
        m.resolves(Result::<V, A::Error>::Ok(v)),
{
    let r = Result::<V, A::Error>::Ok(v);
    assert(r is Ok);
    assert(r->Ok_0 == v);
    assert(exists|u2|
        m.inner.resolves(Result::<A::Value, A::Error>::Ok(u2)) && #[trigger] call_ensures(
            m.f->0,
            (u2,),
            r->Ok_0,
        ));
}

/// A transformed task fails exactly when the inner task fails.
pub proof fn map_resolves_err_intro<A: Task, V, F: FnOnce(A::Value) -> V>(
    m: MapValue<A, V, F>,
    e: A::Error,
)
    requires
        m.inner.resolves(Result::<A::Value, A::Error>::Err(e)),
    ensures
        m.resolves(Result::<V, A::Error>::Err(e)),
{
    let r = Result::<V, A::Error>::Err(e);
    assert(r is Err);
    assert(r->Err_0 == e);
}

/// `map(task, f)`: on `Ready(Ok(v))` the composite completes with `Ok(f(v))`;
/// errors and `Pending` pass through unchanged.
pub fn map<A: Task, V, F: FnOnce(A::Value) -> V>(t: A, f: F) -> (r: MapValue<A, V, F>)
    ensures
        r == (MapValue { inner: t, f: Some(f) }),
{
    MapValue { inner: t, f: Some(f) }
}

/// Transforms the error a task fails with; values and the pending behaviour
/// pass through untouched.
#[verifier::reject_recursive_types(E)]
pub struct MapError<A: Task, E, F: FnOnce(A::Error) -> E> {
    pub inner: A,
    pub f: Option<F>,
}

impl<A: Task, E, F: FnOnce(A::Error) -> E> Task for MapError<A, E, F> {
    type Value = A::Value;

    type Error = E;

    open spec fn wf(&self) -> bool {
        &&& self.inner.wf()
        &&& !self.inner.done() ==> (self.f is Some && forall|e|
            self.inner.resolves(Result::<A::Value, A::Error>::Err(e)) ==> #[trigger] call_requires(
                self.f->0,
                (e,),
            ))
    }

    open spec fn done(&self) -> bool {
        self.inner.done()
    }

    open spec fn resolves(&self, r: Result<A::Value, E>) -> bool {
        ||| (r is Ok && self.inner.resolves(Result::<A::Value, A::Error>::Ok(r->Ok_0)))
        ||| (r is Err && self.f is Some && exists|e|
            self.inner.resolves(Result::<A::Value, A::Error>::Err(e)) && #[trigger] call_ensures(
                self.f->0,
                (e,),
                r->Err_0,
            ))
    }

    open spec fn emitted(&self) -> Multiset<EventModel> {
        self.inner.emitted()
    }

    open spec fn may_finish_emitting(&self, total: Multiset<EventModel>) -> bool {
        self.inner.may_finish_emitting(total)
    }

    open spec fn must_complete_now(&self, now: u64) -> bool {
        self.inner.must_complete_now(now)
    }

    fn poll(&mut self, ctx: &mut Ctx, w: &mut Waker) -> (r: Poll<Result<A::Value, E>>) {
        match self.inner.poll(ctx, w) {
            Poll::Ready(res) => match res {
                Ok(v) => Poll::Ready(Ok(v)),
                Err(e) => {
                    let g = self.f.take().unwrap();
                    let e2 = g(e);
                    proof {
                        map_err_resolves_intro(*old(self), e, e2);
                    }
                    Poll::Ready(Err(e2))
                },
            },
            Poll::Pending => Poll::Pending,
        }
    }
}

/// One way an error-transformed task can fail: the inner task fails and the
/// transform maps that error to the composite's error.
pub proof fn map_err_resolves_intro<A: Task, E, F: FnOnce(A::Error) -> E>(
    m: MapError<A, E, F>,
    e: A::Error,
    e2: E,
)
    requires
        m.f is Some,
        m.inner.resolves(Result::<A::Value, A::Error>::Err(e)),
        call_ensures(m.f->0, (e,), e2),
    ensures
        m.resolves(Result::<A::Value, E>::Err(e2)),
{
    let r = Result::<A::Value, E>::Err(e2);
    assert(r is Err);
    assert(r->Err_0 == e2);
    assert(exists|e3|
        m.inner.resolves(Result::<A::Value, A::Error>::Err(e3)) && #[trigger] call_ensures(
            m.f->0,
            (e3,),
            r->Err_0,
        ));
}

/// `map_err(task, f)`: the only adapter that touches the error channel.
pub fn map_err<A: Task, E, F: FnOnce(A::Error) -> E>(t: A, f: F) -> (r: MapError<A, E, F>)
    ensures
        r == (MapError { inner: t, f: Some(f) }),
{
    MapError { inner: t, f: Some(f) }
}

/// Runs `first` to completion, then the task the continuation builds from its
/// value. An error from `first` short-circuits: the continuation is never
/// invoked and the composite completes with that error.
#[verifier::reject_recursive_types(B)]
pub struct AndThen<A: Task, B: Task<Error = A::Error>, F: FnOnce(A::Value) -> B> {
    pub first: A,
    pub f: Option<F>,
    pub second: Option<B>,
    pub finished: bool,
}

impl<A: Task, B: Task<Error = A::Error>, F: FnOnce(A::Value) -> B> AndThen<A, B, F> {
    /// Still driving the first task: the continuation has not been invoked.
    pub open spec fn in_first_phase(&self) -> bool {
        !self.finished && self.second is None
    }
}

impl<A: Task, B: Task<Error = A::Error>, F: FnOnce(A::Value) -> B> Task for AndThen<A, B, F> {
    type Value = B::Value;

    type Error = A::Error;

    open spec fn wf(&self) -> bool {
        &&& self.first.wf()
        &&& self.in_first_phase() ==> {
            &&& !self.first.done()
            &&& self.f is Some
            &&& forall|u|
                self.first.resolves(Result::<A::Value, A::Error>::Ok(u))
                    ==> #[trigger] call_requires(self.f->0, (u,))
            &&& forall|u, bt: B|
                self.first.resolves(Result::<A::Value, A::Error>::Ok(u)) && #[trigger] call_ensures(
                    self.f->0,
                    (u,),
                    bt,
                ) ==> bt.wf() && !bt.done() && bt.emitted() == Multiset::<EventModel>::empty()
        }
        &&& self.second is Some ==> (self.second->0.wf() && self.first.done() && (!self.finished
            ==> !self.second->0.done()))
    }

    open spec fn done(&self) -> bool {
        self.finished
    }

    open spec fn resolves(&self, r: Result<B::Value, A::Error>) -> bool {
        if self.finished {
            false
        } else if self.second is Some {
            self.second->0.resolves(r)
        } else {
            match r {
                Ok(c) => self.f is Some && exists|u, bt: B|
                    self.first.resolves(Result::<A::Value, A::Error>::Ok(u))
                        && #[trigger] call_ensures(self.f->0, (u,), bt) && bt.resolves(
                        Result::<B::Value, A::Error>::Ok(c),
                    ),
                Err(e) => self.first.resolves(Result::<A::Value, A::Error>::Err(e)) || (
                self.f is Some && exists|u, bt: B|
                    self.first.resolves(Result::<A::Value, A::Error>::Ok(u))
                        && #[trigger] call_ensures(self.f->0, (u,), bt) && bt.resolves(
                        Result::<B::Value, A::Error>::Err(e),
                    )),
            }
        }
    }

    open spec fn emitted(&self) -> Multiset<EventModel> {
        self.first.emitted().add(
            match self.second {
                Some(b) => b.emitted(),
                None => Multiset::empty(),
            },
        )
    }

    open spec fn may_finish_emitting(&self, total: Multiset<EventModel>) -> bool {
        if self.finished {
            total == self.emitted()
        } else if self.second is Some {
            exists|m2| #[trigger] self.second->0.may_finish_emitting(m2) && total
                == self.first.emitted().add(m2)
        } else {
            exists|m1| #[trigger] self.first.may_finish_emitting(m1) && (total == m1 || (
            self.f is Some && exists|u, bt: B, m2|
                #![trigger call_ensures(self.f->0, (u,), bt), bt.may_finish_emitting(m2)]
                self.first.resolves(Result::<A::Value, A::Error>::Ok(u)) && call_ensures(
                    self.f->0,
                    (u,),
                    bt,
                ) && bt.may_finish_emitting(m2) && total == m1.add(m2)))
        }
    }

    open spec fn must_complete_now(&self, now: u64) -> bool {
        ||| (self.second matches Some(b) && b.must_complete_now(now))
        ||| (self.in_first_phase() && self.first.must_complete_now(now) && forall|rr|
            #[trigger] self.first.resolves(rr) ==> rr is Err)
    }

    fn poll(&mut self, ctx: &mut Ctx, w: &mut Waker) -> (r: Poll<Result<B::Value, A::Error>>)
        ensures
            // an obliged first task is driven: its completion either finishes
            // the composite (an error short-circuits at once) or hands over
            // to the continuation's task
            old(self).in_first_phase() && old(self).first.must_complete_now(old(ctx).time())
                ==> !final(self).in_first_phase(),
    {
        if self.second.is_none() {
            match self.first.poll(ctx, w) {
                Poll::Pending => {
                    proof {
                        lemma_add_empty(old(self).first.emitted());
                        lemma_add_empty(self.first.emitted());
                        lemma_add_sub_pairs(
                            old(self).first.emitted(),
                            self.first.emitted(),
                            Multiset::<EventModel>::empty(),
                            Multiset::<EventModel>::empty(),
                        );
                        lemma_sub_self(Multiset::<EventModel>::empty());
                        lemma_add_empty(self.first.emitted().sub(old(self).first.emitted()));
                    }
                    Poll::Pending
                },
                Poll::Ready(res) => match res {
                    Err(e) => {
                        self.finished = true;
                        proof {
                            lemma_add_empty(old(self).first.emitted());
                            lemma_add_empty(self.first.emitted());
                        }
                        Poll::Ready(Err(e))
                    },
                    Ok(u) => {
                        let g = self.f.take().unwrap();
                        let b = g(u);
                        self.second = Some(b);
                        w.wake();
                        proof {
                            lemma_add_empty(old(self).first.emitted());
                            lemma_add_empty(self.first.emitted());
                            assert(self.emitted() == self.first.emitted()) by {
                                assert(self.emitted() =~= self.first.emitted());
                            }
                            assert forall|m| final(self).may_finish_emitting(m) implies old(
                                self,
                            ).may_finish_emitting(m) by {
                                let m2 = choose|m2| #[trigger]
                                    b.may_finish_emitting(m2) && m == self.first.emitted().add(m2);
                                assert(old(self).first.may_finish_emitting(self.first.emitted()));
                                assert(call_ensures(g, (u,), b));
                                assert(old(self).first.resolves(
                                    Result::<A::Value, A::Error>::Ok(u),
                                ));
                            }
                        }
                        Poll::Pending
                    },
                },
            }
        } else {
            let mut b = self.second.take().unwrap();
            let r = b.poll(ctx, w);
            proof {
                lemma_add_sub_pairs(
                    old(self).first.emitted(),
                    self.first.emitted(),
                    old(self).second->0.emitted(),
                    b.emitted(),
                );
                lemma_add_empty(self.first.emitted().sub(old(self).first.emitted()));
                assert(self.first.emitted().sub(old(self).first.emitted())
                    == Multiset::<EventModel>::empty()) by {
                    lemma_sub_self(self.first.emitted());
                }
            }
            match r {
                Poll::Pending => {
                    self.second = Some(b);
                    proof {
                        assert forall|m| final(self).may_finish_emitting(m) implies old(
                            self,
                        ).may_finish_emitting(m) by {
                            let m2 = choose|m2| #[trigger]
                                b.may_finish_emitting(m2) && m == self.first.emitted().add(m2);
                            assert(old(self).second->0.may_finish_emitting(m2));
                        }
                    }
                    Poll::Pending
                },
                Poll::Ready(res) => {
                    self.finished = true;
                    self.second = Some(b);
                    proof {
                        assert(old(self).may_finish_emitting(final(self).emitted())) by {
                            assert(old(self).second->0.may_finish_emitting(b.emitted()));
                        }
                    }
                    Poll::Ready(res)
                },
            }
        }
    }
}

/// `and_then(task, make_next)`: sequences `task` before the task that
/// `make_next` builds from its value, short-circuiting on error.
pub fn and_then<A: Task, B: Task<Error = A::Error>, F: FnOnce(A::Value) -> B>(t: A, f: F) -> (r:
    AndThen<A, B, F>)
    ensures
        r == (AndThen { first: t, f: Some(f), second: None::<B>, finished: false }),
{
    AndThen { first: t, f: Some(f), second: None, finished: false }
}

/// Polls both sides each call, left first; completes with the pair once both
/// sides completed, or with the first error as soon as either side fails,
/// without waiting for the other.
pub struct Join<A: Task, B: Task<Error = A::Error>> {
    pub left: A,
    pub right: B,
    pub lv: Option<A::Value>,
    pub rv: Option<B::Value>,
    pub finished: bool,
}

impl<A: Task, B: Task<Error = A::Error>> Task for Join<A, B> {
    type Value = (A::Value, B::Value);

    type Error = A::Error;

    open spec fn wf(&self) -> bool {
        &&& self.left.wf()
        &&& self.right.wf()
        &&& !self.finished ==> ((self.lv is Some <==> self.left.done()) && (self.rv is Some
            <==> self.right.done()))
    }

    open spec fn done(&self) -> bool {
        self.finished
    }

    open spec fn resolves(&self, r: Result<(A::Value, B::Value), A::Error>) -> bool {
        if self.finished {
            false
        } else {
            match r {
                Ok(p) => (match self.lv {
                    Some(v) => p.0 == v,
                    None => self.left.resolves(Result::<A::Value, A::Error>::Ok(p.0)),
                }) && (match self.rv {
                    Some(v) => p.1 == v,
                    None => self.right.resolves(Result::<B::Value, A::Error>::Ok(p.1)),
                }),
                Err(e) => (self.lv is None && self.left.resolves(
                    Result::<A::Value, A::Error>::Err(e),
                )) || (self.rv is None && self.right.resolves(
                    Result::<B::Value, A::Error>::Err(e),
                )),
            }
        }
    }

    open spec fn emitted(&self) -> Multiset<EventModel> {
        self.left.emitted().add(self.right.emitted())
    }

    open spec fn may_finish_emitting(&self, total: Multiset<EventModel>) -> bool {
        if self.finished {
            total == self.emitted()
        } else {
            exists|m1: Multiset<EventModel>, m2: Multiset<EventModel>| #![trigger m1.add(m2)]
                total == m1.add(m2) && self.left.emitted().subset_of(m1)
                    && self.right.emitted().subset_of(m2)
        }
    }

    open spec fn must_complete_now(&self, now: u64) -> bool {
        &&& !self.finished
        &&& ({
            ||| ((self.lv is Some || self.left.must_complete_now(now)) && (self.rv is Some
                || self.right.must_complete_now(now)))
            ||| (self.lv is None && self.left.must_complete_now(now) && forall|rr|
                #[trigger] self.left.resolves(rr) ==> rr is Err)
            ||| (self.rv is None && self.right.must_complete_now(now) && forall|rr|
                #[trigger] self.right.resolves(rr) ==> rr is Err)
        })
    }

    fn poll(&mut self, ctx: &mut Ctx, w: &mut Waker) -> (r: Poll<
        Result<(A::Value, B::Value), A::Error>,
    >)
        ensures
            // left is polled first: the sink's growth within one poll is
            // left's new emissions followed by right's
            exists|dl: Seq<EventModel>, dr: Seq<EventModel>|
                #![trigger dl.to_multiset(), dr.to_multiset()]
                final(ctx).sink() == old(ctx).sink() + dl + dr
                    && dl.to_multiset() == final(self).left.emitted().sub(old(self).left.emitted())
                    && dr.to_multiset() == final(self).right.emitted().sub(
                    old(self).right.emitted(),
                ),
    {
        let ghost mid_ctx: Ctx;
        if self.lv.is_none() {
            match self.left.poll(ctx, w) {
                Poll::Ready(res) => match res {
                    Ok(x) => {
                        self.lv = Some(x);
                    },
                    Err(e) => {
                        self.finished = true;
                        proof {
                            join_sink_accounting::<A, B>(
                                *old(self),
                                *self,
                                *old(ctx),
                                *ctx,
                                *ctx,
                            );
                        }
                        return Poll::Ready(Err(e));
                    },
                },
                Poll::Pending => {},
            }
        }
        proof {
            mid_ctx = *ctx;
        }
        if self.rv.is_none() {
            match self.right.poll(ctx, w) {
                Poll::Ready(res) => match res {
                    Ok(y) => {
                        self.rv = Some(y);
                    },
                    Err(e) => {
                        self.finished = true;
                        proof {
                            join_sink_accounting::<A, B>(
                                *old(self),
                                *self,
                                *old(ctx),
                                mid_ctx,
                                *ctx,
                            );
                        }
                        return Poll::Ready(Err(e));
                    },
                },
                Poll::Pending => {},
            }
        }
        proof {
            join_sink_accounting::<A, B>(*old(self), *self, *old(ctx), mid_ctx, *ctx);
        }
        if self.lv.is_some() && self.rv.is_some() {
            let x = self.lv.take().unwrap();
            let y = self.rv.take().unwrap();
            self.finished = true;
            Poll::Ready(Ok((x, y)))
        } else {
            Poll::Pending
        }
    }
}

/// Two polls in sequence, one per side, extend the sink by exactly the union
/// of the two sides' new emissions.
proof fn join_sink_accounting<A: Task, B: Task<Error = A::Error>>(
    s0: Join<A, B>,
    s1: Join<A, B>,
    c0: Ctx,
    c1: Ctx,
    c2: Ctx,
)
    requires
        s0.left.emitted().subset_of(s1.left.emitted()),
        s0.right.emitted().subset_of(s1.right.emitted()),
        (c1.sink().to_multiset() == c0.sink().to_multiset().add(
            s1.left.emitted().sub(s0.left.emitted()),
        ) && c0.sink().is_prefix_of(c1.sink())) || (c1 == c0 && s1.left.emitted()
            == s0.left.emitted()),
        (c2.sink().to_multiset() == c1.sink().to_multiset().add(
            s1.right.emitted().sub(s0.right.emitted()),
        ) && c1.sink().is_prefix_of(c2.sink())) || (c2 == c1 && s1.right.emitted()
            == s0.right.emitted()),
    ensures
        c2.sink().to_multiset() == c0.sink().to_multiset().add(
            s1.left.emitted().add(s1.right.emitted()).sub(
                s0.left.emitted().add(s0.right.emitted()),
            ),
        ),
        c0.sink().is_prefix_of(c2.sink()),
        s0.left.emitted().add(s0.right.emitted()).subset_of(
            s1.left.emitted().add(s1.right.emitted()),
        ),
        exists|dl: Seq<EventModel>, dr: Seq<EventModel>|
            #![trigger dl.to_multiset(), dr.to_multiset()]
            c2.sink() == c0.sink() + dl + dr && dl.to_multiset() == s1.left.emitted().sub(
                s0.left.emitted(),
            ) && dr.to_multiset() == s1.right.emitted().sub(s0.right.emitted()),
{
    if c1 == c0 && s1.left.emitted() == s0.left.emitted() {
        lemma_sub_self(s0.left.emitted());
        lemma_add_empty(c0.sink().to_multiset());
    }
    if c2 == c1 && s1.right.emitted() == s0.right.emitted() {
        lemma_sub_self(s0.right.emitted());
        lemma_add_empty(c1.sink().to_multiset());
    }
    assert(c1.sink().is_prefix_of(c1.sink())) by {
        assert(c1.sink() =~= c1.sink().subrange(0, c1.sink().len() as int));
    }
    assert(c0.sink().is_prefix_of(c0.sink())) by {
        assert(c0.sink() =~= c0.sink().subrange(0, c0.sink().len() as int));
    }
    lemma_add_sub_pairs(
        s0.left.emitted(),
        s1.left.emitted(),
        s0.right.emitted(),
        s1.right.emitted(),
    );
    lemma_add_assoc(
        c0.sink().to_multiset(),
        s1.left.emitted().sub(s0.left.emitted()),
        s1.right.emitted().sub(s0.right.emitted()),
    );
    lemma_prefix_trans(c0.sink(), c1.sink(), c2.sink());
    // the sink's growth splits in order: left's new emissions, then right's
    let ld = s1.left.emitted().sub(s0.left.emitted());
    let rd = s1.right.emitted().sub(s0.right.emitted());
    let dl = c1.sink().skip(c0.sink().len() as int);
    let dr = c2.sink().skip(c1.sink().len() as int);
    assert(c1.sink() =~= c0.sink() + dl);
    assert(c2.sink() =~= c1.sink() + dr);
    vstd::seq_lib::lemma_multiset_commutative(c0.sink(), dl);
    vstd::seq_lib::lemma_multiset_commutative(c1.sink(), dr);
    assert(c0.sink().to_multiset().add(dl.to_multiset()) == c0.sink().to_multiset().add(ld));
    lemma_add_left_cancel(c0.sink().to_multiset(), dl.to_multiset(), ld);
    assert(c1.sink().to_multiset().add(dr.to_multiset()) == c1.sink().to_multiset().add(rd));
    lemma_add_left_cancel(c1.sink().to_multiset(), dr.to_multiset(), rd);
    assert(c2.sink() =~= c0.sink() + dl + dr);
    assert(c2.sink() == c0.sink() + dl + dr && dl.to_multiset() == ld && dr.to_multiset() == rd);
}

/// `join(left, right)`: runs both tasks, completing with the pair of values
/// or the first error.
pub fn join<A: Task, B: Task<Error = A::Error>>(left: A, right: B) -> (r: Join<A, B>)
    ensures
        r == (Join {
            left,
            right,
            lv: None::<A::Value>,
            rv: None::<B::Value>,
            finished: false,
        }),
{
    Join { left, right, lv: None, rv: None, finished: false }
}

/// Sequencing short-circuits on error: while the continuation has not been
/// invoked, if the first task can only fail with `e`, the composite can only
/// complete with `Err(e)` — no continuation result is reachable.
pub proof fn lemma_and_then_short_circuits<
    A: Task,
    B: Task<Error = A::Error>,
    F: FnOnce(A::Value) -> B,
>(t: AndThen<A, B, F>, e: A::Error)
    requires
        t.in_first_phase(),
        forall|rr| #[trigger] t.first.resolves(rr) ==> rr == Result::<A::Value, A::Error>::Err(e),
    ensures
        forall|r| #[trigger] t.resolves(r) ==> r == Result::<B::Value, A::Error>::Err(e),
{
    assert forall|r| #[trigger] t.resolves(r) implies r == Result::<B::Value, A::Error>::Err(e) by {
        if r is Ok {
            let (u, bt) = choose|u: A::Value, bt: B|
                t.first.resolves(Result::<A::Value, A::Error>::Ok(u)) && #[trigger] call_ensures(
                    t.f->0,
                    (u,),
                    bt,
                ) && bt.resolves(Result::<B::Value, A::Error>::Ok(r->Ok_0));
            assert(false);
        } else {
            if !t.first.resolves(Result::<A::Value, A::Error>::Err(r->Err_0)) {
                let (u, bt) = choose|u: A::Value, bt: B|
                    t.first.resolves(Result::<A::Value, A::Error>::Ok(u))
                        && #[trigger] call_ensures(t.f->0, (u,), bt) && bt.resolves(
                        Result::<B::Value, A::Error>::Err(r->Err_0),
                    );
                assert(false);
            }
        }
    }
}

/// When the first task can only fail, the continuation never matters: two
/// sequenced composites over the same first task, whatever their
/// continuations, can complete with exactly the same results.
pub proof fn lemma_and_then_error_ignores_continuation<
    A: Task,
    B: Task<Error = A::Error>,
    B2: Task<Error = A::Error, Value = B::Value>,
    F: FnOnce(A::Value) -> B,
    G: FnOnce(A::Value) -> B2,
>(t1: AndThen<A, B, F>, t2: AndThen<A, B2, G>, e: A::Error)
    requires
        t1.in_first_phase(),
        t2.in_first_phase(),
        t1.first == t2.first,
        forall|rr| #[trigger] t1.first.resolves(rr) ==> rr == Result::<A::Value, A::Error>::Err(e),
    ensures
        forall|r| #[trigger] t1.resolves(r) <==> #[trigger] t2.resolves(r),
{
    lemma_and_then_short_circuits(t1, e);
    lemma_and_then_short_circuits(t2, e);
    assert forall|r| #[trigger] t1.resolves(r) implies t2.resolves(r) by {
        assert(r == Result::<B::Value, A::Error>::Err(e));
        if !t1.first.resolves(Result::<A::Value, A::Error>::Err(e)) {
            let (u, bt) = choose|u: A::Value, bt: B|
                t1.first.resolves(Result::<A::Value, A::Error>::Ok(u)) && #[trigger] call_ensures(
                    t1.f->0,
                    (u,),
                    bt,
                ) && bt.resolves(Result::<B::Value, A::Error>::Err(e));
            assert(false);
        }
    }
    assert forall|r| #[trigger] t2.resolves(r) implies t1.resolves(r) by {
        assert(r == Result::<B::Value, A::Error>::Err(e));
        if !t2.first.resolves(Result::<A::Value, A::Error>::Err(e)) {
            let (u, bt) = choose|u: A::Value, bt: B2|
                t2.first.resolves(Result::<A::Value, A::Error>::Ok(u)) && #[trigger] call_ensures(
                    t2.f->0,
                    (u,),
                    bt,
                ) && bt.resolves(Result::<B::Value, A::Error>::Err(e));
            assert(false);
        }
    }
}

/// A join completes with the pair exactly when both sides can complete with
/// the respective values.
pub proof fn lemma_join_ready_iff_both<A: Task, B: Task<Error = A::Error>>(
    t: Join<A, B>,
    x: A::Value,
    y: B::Value,
)
    requires
        !t.finished,
        t.lv is None,
        t.rv is None,
    ensures
        t.resolves(Result::<(A::Value, B::Value), A::Error>::Ok((x, y))) <==> (t.left.resolves(
            Result::<A::Value, A::Error>::Ok(x),
        ) && t.right.resolves(Result::<B::Value, A::Error>::Ok(y))),
{
}

/// Either side failing fails the join with that error, without waiting for
/// the other side.
pub proof fn lemma_join_fail_fast<A: Task, B: Task<Error = A::Error>>(t: Join<A, B>, e: A::Error)
    requires
        !t.finished,
        t.lv is None,
        t.rv is None,
    ensures
        t.resolves(Result::<(A::Value, B::Value), A::Error>::Err(e)) <==> (t.left.resolves(
            Result::<A::Value, A::Error>::Err(e),
        ) || t.right.resolves(Result::<B::Value, A::Error>::Err(e))),
{
}

/// Transforming a value twice is one transform by the composed function:
/// a task mapped through `f` and then `g` can complete with exactly the
/// results of mapping it once through an `h` that behaves as `g` after `f`.
pub proof fn lemma_map_fusion<
    A: Task,
    V1,
    V2,
    F: FnOnce(A::Value) -> V1,
    G: FnOnce(V1) -> V2,
    H: FnOnce(A::Value) -> V2,
>(mm: MapValue<MapValue<A, V1, F>, V2, G>, single: MapValue<A, V2, H>)
    requires
        mm.inner.inner == single.inner,
        mm.f is Some,
        mm.inner.f is Some,
        single.f is Some,
        forall|u: A::Value, v: V2| #[trigger] call_ensures(single.f->0, (u,), v) <==> exists|
            m: V1,
        |
            #[trigger] call_ensures(mm.inner.f->0, (u,), m) && call_ensures(mm.f->0, (m,), v),
    ensures
        forall|r: Result<V2, A::Error>| #[trigger] mm.resolves(r) <==> #[trigger] single.resolves(
            r,
        ),
{
    assert forall|r: Result<V2, A::Error>| #[trigger] mm.resolves(r) implies single.resolves(
        r,
    ) by {
        if r is Ok {
            let m = choose|m: V1|
                mm.inner.resolves(Result::<V1, A::Error>::Ok(m)) && #[trigger] call_ensures(
                    mm.f->0,
                    (m,),
                    r->Ok_0,
                );
            assert(mm.inner.resolves(Result::<V1, A::Error>::Ok(m)));
            let u = choose|u: A::Value|
                mm.inner.inner.resolves(Result::<A::Value, A::Error>::Ok(u))
                    && #[trigger] call_ensures(mm.inner.f->0, (u,), Result::<V1, A::Error>::Ok(m)->Ok_0);
            assert(mm.inner.inner.resolves(Result::<A::Value, A::Error>::Ok(u)));
            assert(call_ensures(mm.inner.f->0, (u,), m));
            assert(call_ensures(single.f->0, (u,), r->Ok_0)) by {
                assert(exists|m2: V1|
                    #[trigger] call_ensures(mm.inner.f->0, (u,), m2) && call_ensures(
                        mm.f->0,
                        (m2,),
                        r->Ok_0,
                    ));
            }
            assert(exists|u2: A::Value|
                single.inner.resolves(Result::<A::Value, A::Error>::Ok(u2)) && #[trigger] call_ensures(
                    single.f->0,
                    (u2,),
                    r->Ok_0,
                ));
        }
    }
    assert forall|r: Result<V2, A::Error>| #[trigger] single.resolves(r) implies mm.resolves(
        r,
    ) by {
        if r is Ok {
            let u = choose|u: A::Value|
                single.inner.resolves(Result::<A::Value, A::Error>::Ok(u)) && #[trigger] call_ensures(
                    single.f->0,
                    (u,),
                    r->Ok_0,
                );
            assert(single.inner.resolves(Result::<A::Value, A::Error>::Ok(u)));
            assert(call_ensures(single.f->0, (u,), r->Ok_0));
            let m = choose|m: V1|
                #[trigger] call_ensures(mm.inner.f->0, (u,), m) && call_ensures(
                    mm.f->0,
                    (m,),
                    r->Ok_0,
                );
            assert(call_ensures(mm.inner.f->0, (u,), m));
            assert(call_ensures(mm.f->0, (m,), r->Ok_0));
            map_resolves_intro(mm.inner, u, m);
            assert(mm.inner.resolves(Result::<V1, A::Error>::Ok(m)));
            map_resolves_intro(mm, m, r->Ok_0);
            assert(r == Result::<V2, A::Error>::Ok(r->Ok_0));
        } else {
            assert(single.inner.resolves(Result::<A::Value, A::Error>::Err(r->Err_0)));
            map_resolves_err_intro(mm.inner, r->Err_0);
            map_resolves_err_intro(mm, r->Err_0);
            assert(r == Result::<V2, A::Error>::Err(r->Err_0));
        }
    }
}

/// Adds ten to the value an integer-valued task completes with; errors and
/// pending polls pass through untouched.
pub struct AddTen<A: Task<Value = i64>> {
    pub inner: A,
}

impl<A: Task<Value = i64>> Task for AddTen<A> {
    type Value = i64;

    type Error = A::Error;

    open spec fn wf(&self) -> bool {
        &&& self.inner.wf()
        &&& forall|u: i64|
            self.inner.resolves(Result::<i64, A::Error>::Ok(u)) ==> u <= i64::MAX - 10
    }

    open spec fn done(&self) -> bool {
        self.inner.done()
    }

    open spec fn resolves(&self, r: Result<i64, A::Error>) -> bool {
        ||| (r is Ok && exists|u: i64|
            #[trigger] self.inner.resolves(Result::<i64, A::Error>::Ok(u)) && r->Ok_0 == u + 10)
        ||| (r is Err && self.inner.resolves(Result::<i64, A::Error>::Err(r->Err_0)))
    }

    open spec fn emitted(&self) -> Multiset<EventModel> {
        self.inner.emitted()
    }

    open spec fn may_finish_emitting(&self, total: Multiset<EventModel>) -> bool {
        self.inner.may_finish_emitting(total)
    }

    open spec fn must_complete_now(&self, now: u64) -> bool {
        self.inner.must_complete_now(now)
    }

    fn poll(&mut self, ctx: &mut Ctx, w: &mut Waker) -> (r: Poll<Result<i64, A::Error>>) {
        match self.inner.poll(ctx, w) {
            Poll::Ready(res) => match res {
                Ok(u) => {
                    let v = u + 10;
                    proof {
                        let rr = Result::<i64, A::Error>::Ok(v);
                        assert(rr is Ok);
                        assert(rr->Ok_0 == v);
                        assert(exists|u2: i64|
                            #[trigger] old(self).inner.resolves(Result::<i64, A::Error>::Ok(u2))
                                && rr->Ok_0 == u2 + 10);
                    }
                    Poll::Ready(Ok(v))
                },
                Err(e) => Poll::Ready(Err(e)),
            },
            Poll::Pending => Poll::Pending,
        }
    }
}

/// `add_10(task)`: the task that completes with ten more than `task` does.
pub fn add_10<A: Task<Value = i64>>(f: A) -> (r: AddTen<A>)
    ensures
        r == (AddTen { inner: f }),
{
    AddTen { inner: f }
}

} // verus!
