# sched

A single-threaded scheduler of tasks, verified with Verus.

- `src/sleep_ring.rs`: the ring of sleeping tasks, indexed by the wall-clock
  tick at which each task falls due, with its laws.
- `src/task.rs`: tasks and their default names.
- `src/runtime.rs`: the per-thread state (executor registration, wall clock,
  running task) and the executor (task table, run queue, sleep ring).
- `src/sleep.rs`: the sleep future's decision.
- `src/task_handle.rs`, `src/my_wake.rs`: waking a task through its handle.
- `src/run_loop.rs`: the executor's run loop as a state machine: each step
  takes what the caller did and says what it should do next; `run_steps`
  strings steps together over a round.
- `src/laws.rs`: properties that span several operations: registration,
  task ids, run queue order, what one round does, and when a sleeping task
  is polled again.
- `app/`: the program around the library: thread-local state, wakers,
  futures, the loop that polls and sleeps.
