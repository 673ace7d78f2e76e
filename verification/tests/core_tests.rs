use std::cell::Cell;

use coop_futures::combinators::{self, add_10, and_then, join, map_err};
use coop_futures::context::{Ctx, Event, Poll, Waker};
use coop_futures::executor::Executor;
use coop_futures::stream::{fibonacci, for_each, take, unfold, Stream};
use coop_futures::task::{ready, MyTask, Task};

fn message_texts(ctx: &Ctx) -> Vec<String> {
    ctx.events()
        .iter()
        .filter_map(|e| match e {
            Event::Message { text } => Some(text.clone()),
            Event::Progress { .. } => None,
        })
        .collect()
}

#[test]
fn sleep_zero_completes_on_first_poll_without_wake() {
    let mut ctx = Ctx::new(5);
    let mut w = Waker::new();
    let mut t = MyTask::sleep(0);
    let r = t.poll(&mut ctx, &mut w);
    assert!(matches!(r, Poll::Ready(Ok(()))));
    assert!(!w.woken());
}

#[test]
fn sleep_waits_for_the_deadline() {
    let mut ctx = Ctx::new(100);
    let mut w = Waker::new();
    let mut t = MyTask::sleep(30);
    assert!(matches!(t.poll(&mut ctx, &mut w), Poll::Pending));
    assert!(w.woken());
    ctx.advance(29);
    let mut w2 = Waker::new();
    assert!(matches!(t.poll(&mut ctx, &mut w2), Poll::Pending));
    ctx.advance(1);
    let mut w3 = Waker::new();
    assert!(matches!(t.poll(&mut ctx, &mut w3), Poll::Ready(Ok(()))));
    assert!(!w3.woken());
}

#[test]
fn wake_is_idempotent() {
    let mut w = Waker::new();
    w.wake();
    let once = w.woken();
    w.wake();
    assert!(once);
    assert!(w.woken());
}

#[test]
fn bounded_work_decrements_exactly_n_times() {
    // 2500 units at a slice of 1000: two yields, then completion
    let mut ctx = Ctx::new(0);
    let mut t = MyTask::task_with_slice(7, 2500, 1000);
    let mut pending_polls = 0u64;
    loop {
        let mut w = Waker::new();
        match t.poll(&mut ctx, &mut w) {
            Poll::Ready(Ok(())) => break,
            Poll::Ready(Err(())) => panic!("bounded work cannot fail"),
            Poll::Pending => {
                assert!(w.woken());
                pending_polls += 1;
            }
        }
    }
    assert_eq!(pending_polls, 2);
    // the progress trail accounts for every decrement
    let progress: Vec<(u64, u64)> = ctx
        .events()
        .iter()
        .filter_map(|e| match e {
            Event::Progress { id, remaining } => Some((*id, *remaining)),
            Event::Message { .. } => None,
        })
        .collect();
    assert_eq!(progress, vec![(7, 1500), (7, 500)]);
}

#[test]
fn bounded_work_total_is_independent_of_granularity() {
    for slice in [1u64, 3, 100, 2500, 10_000] {
        let mut ctx = Ctx::new(0);
        let mut t = MyTask::task_with_slice(1, 2500, slice);
        let mut polls = 0u64;
        loop {
            let mut w = Waker::new();
            match t.poll(&mut ctx, &mut w) {
                Poll::Ready(_) => break,
                Poll::Pending => polls += 1,
            }
        }
        // however the slices fall, the work performed is exactly 2500 units
        let expected_yields = if 2500 % slice == 0 {
            2500 / slice - 1
        } else {
            2500 / slice
        };
        assert_eq!(polls, expected_yields);
    }
}

#[test]
fn log_emits_its_message_once_and_completes() {
    let mut ctx = Ctx::new(0);
    let mut w = Waker::new();
    let mut t = MyTask::log(String::from("hello"));
    let r = t.poll(&mut ctx, &mut w);
    assert!(matches!(r, Poll::Ready(Ok(()))));
    assert_eq!(message_texts(&ctx), vec![String::from("hello")]);
}

#[test]
fn and_then_error_short_circuits_and_skips_continuation() {
    let calls = Cell::new(0u32);
    let first = ready(Err::<(), u32>(42));
    let mut chain = and_then(first, |_v: ()| {
        calls.set(calls.get() + 1);
        ready(Ok::<(), u32>(()))
    });
    let mut ctx = Ctx::new(0);
    let mut w = Waker::new();
    let r = chain.poll(&mut ctx, &mut w);
    assert!(matches!(r, Poll::Ready(Err(42))));
    assert_eq!(calls.get(), 0);
}

#[test]
fn and_then_sequences_in_order() {
    let first = MyTask::log(String::from("first"));
    let chain = and_then(first, |_v: ()| MyTask::log(String::from("second")));
    let mut ctx = Ctx::new(0);
    let mut ex = Executor::new();
    let h = ex.submit(chain);
    let finished = ex.run_until_complete(&mut ctx, 100);
    assert!(finished);
    assert!(matches!(ex.result_of(h), Some(Ok(()))));
    assert_eq!(
        message_texts(&ctx),
        vec![String::from("first"), String::from("second")]
    );
}

#[test]
fn join_completes_with_both_values() {
    let left = ready(Ok::<u64, ()>(1));
    let right = ready(Ok::<u64, ()>(2));
    let mut j = join(left, right);
    let mut ctx = Ctx::new(0);
    let mut w = Waker::new();
    let r = j.poll(&mut ctx, &mut w);
    assert!(matches!(r, Poll::Ready(Ok((1, 2)))));
}

#[test]
fn join_fails_fast_without_waiting_for_the_other_side() {
    let left = ready(Err::<(), ()>(()));
    let right = MyTask::log(String::from("never"));
    let mut j = join(left, right);
    let mut ctx = Ctx::new(0);
    let mut w = Waker::new();
    let r = j.poll(&mut ctx, &mut w);
    assert!(matches!(r, Poll::Ready(Err(()))));
    // the still-pending side was not driven: nothing reached the sink
    assert_eq!(ctx.events().len(), 0);
}

#[test]
fn map_transforms_the_value_only() {
    let mut m = combinators::map(ready(Ok::<i64, u32>(5)), |v: i64| v * 3);
    let mut ctx = Ctx::new(0);
    let mut w = Waker::new();
    assert!(matches!(m.poll(&mut ctx, &mut w), Poll::Ready(Ok(15))));

    let mut m2 = combinators::map(ready(Err::<i64, u32>(4)), |v: i64| v * 3);
    let mut w2 = Waker::new();
    assert!(matches!(m2.poll(&mut ctx, &mut w2), Poll::Ready(Err(4))));
}

#[test]
fn map_twice_equals_map_of_composition() {
    let mut doubled = combinators::map(combinators::map(ready(Ok::<i64, ()>(5)), |v: i64| v * 2), |v: i64| v + 1);
    let mut composed = combinators::map(ready(Ok::<i64, ()>(5)), |v: i64| v * 2 + 1);
    let mut ctx = Ctx::new(0);
    let mut w = Waker::new();
    let a = doubled.poll(&mut ctx, &mut w);
    let mut w2 = Waker::new();
    let b = composed.poll(&mut ctx, &mut w2);
    assert!(matches!(a, Poll::Ready(Ok(11))));
    assert!(matches!(b, Poll::Ready(Ok(11))));
}

#[test]
fn map_err_transforms_the_error_only() {
    let mut m = map_err(ready(Err::<(), u32>(7)), |e: u32| e + 1);
    let mut ctx = Ctx::new(0);
    let mut w = Waker::new();
    assert!(matches!(m.poll(&mut ctx, &mut w), Poll::Ready(Err(8))));

    let mut m2 = map_err(ready(Ok::<(), u32>(())), |e: u32| e + 1);
    let mut w2 = Waker::new();
    assert!(matches!(m2.poll(&mut ctx, &mut w2), Poll::Ready(Ok(()))));
}

#[test]
fn add_10_adds_ten() {
    let mut t = add_10(ready(Ok::<i64, ()>(32)));
    let mut ctx = Ctx::new(0);
    let mut w = Waker::new();
    assert!(matches!(t.poll(&mut ctx, &mut w), Poll::Ready(Ok(42))));
}

#[test]
fn fibonacci_take_five_yields_the_first_five() {
    let mut s = take(fibonacci(), 5);
    let mut got = Vec::new();
    while let Some(v) = s.next() {
        got.push(v);
    }
    assert_eq!(got, vec![1, 1, 2, 3, 5]);
}

#[test]
fn unfold_produces_from_seed_until_the_step_stops() {
    let mut s = unfold(0u32, |x: u32| if x < 3 { Some((x, x + 1)) } else { None });
    let mut got = Vec::new();
    while let Some(v) = s.next() {
        got.push(v);
    }
    assert_eq!(got, vec![0, 1, 2]);
    assert!(s.next().is_none());
}

#[test]
fn for_each_drives_one_task_per_value() {
    let folded = for_each(take(fibonacci(), 3), |_v: u64| MyTask::log(String::from("tick")));
    let mut ctx = Ctx::new(0);
    let mut ex = Executor::new();
    let h = ex.submit(folded);
    let finished = ex.run_until_complete(&mut ctx, 100);
    assert!(finished);
    assert!(matches!(ex.result_of(h), Some(Ok(()))));
    assert_eq!(message_texts(&ctx).len(), 3);
}

#[test]
fn executor_runs_n_logs_and_sink_sees_each_message_once() {
    let mut ctx = Ctx::new(0);
    let mut ex = Executor::new();
    let n = 8usize;
    for i in 0..n {
        ex.submit(MyTask::log(format!("message {}", i)));
    }
    let finished = ex.run_until_complete(&mut ctx, 100);
    assert!(finished);
    let texts = message_texts(&ctx);
    assert_eq!(texts.len(), n);
    for i in 0..n {
        let expected = format!("message {}", i);
        assert_eq!(texts.iter().filter(|t| **t == expected).count(), 1);
    }
}

#[test]
fn executor_interleaves_independent_work() {
    let mut ctx = Ctx::new(0);
    let mut ex = Executor::new();
    let a = ex.submit(MyTask::task_with_slice(1, 300, 100));
    let b = ex.submit(MyTask::task_with_slice(2, 100, 100));
    let finished = ex.run_until_complete(&mut ctx, 1000);
    assert!(finished);
    assert!(matches!(ex.result_of(a), Some(Ok(()))));
    assert!(matches!(ex.result_of(b), Some(Ok(()))));
    // both tasks yielded progress; the first reported twice, the second never
    // finished a slice with work left
    let ids: Vec<u64> = ctx
        .events()
        .iter()
        .filter_map(|e| match e {
            Event::Progress { id, .. } => Some(*id),
            Event::Message { .. } => None,
        })
        .collect();
    assert_eq!(ids.iter().filter(|i| **i == 1).count(), 2);
    assert_eq!(ids.iter().filter(|i| **i == 2).count(), 0);
}

#[test]
fn executor_runs_out_of_fuel_without_losing_tasks() {
    let mut ctx = Ctx::new(0);
    let mut ex = Executor::new();
    let h = ex.submit(MyTask::task_with_slice(3, 1000, 10));
    let finished = ex.run_until_complete(&mut ctx, 5);
    assert!(!finished);
    assert!(ex.result_of(h).is_none());
    // a later call picks the task back up and finishes it
    let finished2 = ex.run_until_complete(&mut ctx, 1000);
    assert!(finished2);
    assert!(matches!(ex.result_of(h), Some(Ok(()))));
}

#[test]
fn full_application_chain_runs_to_completion() {
    // a start message, work, a pause, more work, joined with a second lane
    let lane1 = and_then(MyTask::log(String::from("[10] doing work")), |_v: ()| {
        MyTask::task_with_slice(10, 250, 100)
    });
    let lane1 = and_then(lane1, |_v: ()| MyTask::log(String::from("[11] waiting")));
    let lane2 = and_then(MyTask::log(String::from("[20] doing work")), |_v: ()| {
        MyTask::task_with_slice(20, 450, 100)
    });
    let app = join(lane1, lane2);
    let app = combinators::map(app, |_p: ((), ())| ());
    let mut ctx = Ctx::new(0);
    let mut ex = Executor::new();
    let h = ex.submit(app);
    let finished = ex.run_until_complete(&mut ctx, 10_000);
    assert!(finished);
    assert!(matches!(ex.result_of(h), Some(Ok(()))));
    let texts = message_texts(&ctx);
    assert_eq!(texts.len(), 3);
    assert_eq!(texts[0], "[10] doing work");
}

#[test]
fn for_each_fails_with_the_first_element_error() {
    let folded = for_each(take(fibonacci(), 3), |v: u64| ready(Err::<(), u64>(v)));
    let mut ctx = Ctx::new(0);
    let mut ex = Executor::new();
    let h = ex.submit(folded);
    let finished = ex.run_until_complete(&mut ctx, 100);
    assert!(finished);
    // the first produced value is 1; its task fails the whole fold
    assert!(matches!(ex.result_of(h), Some(Err(1))));
}
