use crate::runtime::{
    thread_runtime_sleep_mod,
    thread_runtime_wall_clock,
    Executor,
    ExecutorView,
    PollState,
    RuntimeView,
    ThreadRuntime,
};
use crate::sleep_ring::ring_push;
use vstd::prelude::*;

verus! {

/// Polling a sleep that is due at tick `until` for task `task`: ready once
/// the wall clock has reached `until`; otherwise the task is parked in the
/// sleep ring of `e`, the executor registered on the thread, for the ticks
/// that remain, and the poll is pending; with no such executor it is ready.
pub open spec fn sleep_poll_spec(rt: RuntimeView, e: ExecutorView, until: u64, task: u64) -> (
    PollState,
    ExecutorView,
) {
    if until <= rt.wall_clock {
        (PollState::Ready, e)
    } else if rt.exe_registered == Some(e.exe_id) {
        (
            PollState::Pending,
            ExecutorView {
                sleep: ring_push(e.sleep, rt.wall_clock, (until - rt.wall_clock) as u64, task),
                ..e
            },
        )
    } else {
        (PollState::Ready, e)
    }
}

/// A future that is ready once the wall clock reaches a given tick.
pub struct TaskSleep {
    until_clock: u64,
}

impl View for TaskSleep {
    type V = u64;

    closed spec fn view(&self) -> u64 {
        self.until_clock
    }
}

impl TaskSleep {
    /// A sleep that is due at tick `until_clock`.
    pub fn new(until_clock: u64) -> (s: Self)
        ensures
            s@ == until_clock,
    {
        TaskSleep { until_clock }
    }

    /// The tick at which the sleep is due.
    pub fn until_clock(&self) -> (c: u64)
        ensures
            c == self@,
    {
        self.until_clock
    }

    /// Polls the sleep on behalf of task `task_id`, with `exe` the executor
    /// whose sleep module the thread reaches.
    pub fn poll(&self, rt: &ThreadRuntime, exe: &mut Executor, task_id: u64) -> (p: PollState)
        requires
            old(exe).wf(),
        ensures
            final(exe).wf(),
            (p, final(exe)@) == sleep_poll_spec(rt@, old(exe)@, self@, task_id),
    {
        let latest_clock = thread_runtime_wall_clock(rt);
        if self.until_clock <= latest_clock {
            PollState::Ready
        } else {
            match thread_runtime_sleep_mod(rt) {
                Some(id) => {
                    if id == exe.exe_id() {
                        match exe.push_back_sleep_task(rt, self.until_clock - latest_clock, task_id) {
                            Ok(()) => PollState::Pending,
                            Err(()) => PollState::Ready,
                        }
                    } else {
                        PollState::Ready
                    }
                },
                None => PollState::Ready,
            }
        }
    }
}

} // verus!
