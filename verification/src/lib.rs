//! A single-threaded scheduler of tasks: executors with a run queue of task
//! ids, a wall clock in ticks, and a ring of sleeping tasks indexed by the
//! tick at which each falls due.

pub mod laws;
pub mod my_wake;
pub mod run_loop;
pub mod runtime;
pub mod sleep;
pub mod sleep_ring;
pub mod task;
pub mod task_handle;
