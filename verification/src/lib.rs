//! A cooperative future core: pollable tasks, combinators that compose them,
//! lazy streams, and a run-queue executor that drives tasks to completion.
//!
//! A task is an explicit state machine. Polling it either completes it with a
//! `Result` or leaves it pending; a pending task must first wake its waker, or
//! it stalls forever. Combinators (`map`, `map_err`, `and_then`, `join`) build
//! larger tasks out of smaller ones, streams unfold lazy sequences of values,
//! and the executor owns the run queue and polls runnable tasks until every
//! submitted root task has completed.

pub mod context;
pub mod task;
pub mod combinators;
pub mod stream;
pub mod executor;
