use sched::my_wake::LocalWake;
use sched::runtime::{
    thread_exe_id_gen, thread_runtime_check, thread_runtime_exe_id, thread_runtime_sleep_mod,
    thread_runtime_wall_clock, thread_runtime_wall_clock_inc, Executor, PollState, ThreadRuntime,
};
use sched::sleep::TaskSleep;
use sched::sleep_ring::{ExeSubmodSleep, SLEEP_RING_SLOTS};
use sched::task::{Task, TaskState};
use sched::task_handle::TaskHandle;
use std::rc::Rc;

fn tick(rt: &mut ThreadRuntime, n: u64) {
    for _ in 0..n {
        thread_runtime_wall_clock_inc(rt);
    }
}

/// Polls the next runnable task once with the given outcome; gives its id
/// and the name the thread reported while it ran.
fn run_one(
    rt: &mut ThreadRuntime,
    exe: &mut Executor,
    outcome: PollState,
    finished: &mut Vec<u64>,
) -> Option<(u64, String, u64)> {
    let id = exe.pop_runnable()?;
    Executor::process_run_queue_begin(rt, exe, id);
    let name = Executor::task_name(rt);
    let running = Executor::task_id(rt);
    Executor::process_run_queue_end(rt, exe, id, outcome, finished);
    Some((id, name, running))
}

#[test]
fn new_thread_runtime_is_idle() {
    let rt = ThreadRuntime::new();
    assert_eq!(thread_runtime_wall_clock(&rt), 0);
    assert_eq!(thread_runtime_exe_id(&rt), None);
    assert_eq!(thread_runtime_sleep_mod(&rt), None);
    assert_eq!(Executor::task_id(&rt), 0);
    assert_eq!(Executor::task_name(&rt), "");
}

#[test]
fn executor_ids_come_from_the_thread_generator() {
    let mut rt = ThreadRuntime::new();
    let a = Executor::new(&mut rt);
    let b = Executor::new(&mut rt);
    assert_eq!(a.exe_id(), 1);
    assert_eq!(b.exe_id(), 2);
    assert_eq!(thread_exe_id_gen(&mut rt), 3);
}

#[test]
fn register_then_unregister_round_trip() {
    let mut rt = ThreadRuntime::new();
    let exe = Executor::new(&mut rt);
    assert_eq!(exe.register(&mut rt), Ok(()));
    assert_eq!(thread_runtime_exe_id(&rt), Some(exe.exe_id()));
    assert!(thread_runtime_check(&rt, &exe));
    assert_eq!(exe.unregister(&mut rt), Ok(()));
    assert_eq!(thread_runtime_exe_id(&rt), None);
    assert!(!thread_runtime_check(&rt, &exe));
    assert_eq!(exe.register(&mut rt), Ok(()));
}

#[test]
fn registration_is_exclusive() {
    let mut rt = ThreadRuntime::new();
    let a = Executor::new(&mut rt);
    let b = Executor::new(&mut rt);
    assert_eq!(a.register(&mut rt), Ok(()));
    assert_eq!(a.register(&mut rt), Err(()));
    assert_eq!(b.register(&mut rt), Err(()));
    assert_eq!(b.unregister(&mut rt), Err(()));
    assert_eq!(thread_runtime_exe_id(&rt), Some(a.exe_id()));
}

#[test]
fn unregister_without_registration_fails() {
    let mut rt = ThreadRuntime::new();
    let a = Executor::new(&mut rt);
    assert_eq!(a.unregister(&mut rt), Err(()));
}

#[test]
fn spawn_needs_registration() {
    let mut rt = ThreadRuntime::new();
    let mut exe = Executor::new(&mut rt);
    assert_eq!(exe.spawn(&rt), Err(()));
    assert_eq!(exe.pop_runnable(), None);
}

#[test]
fn spawned_tasks_run_in_order_with_their_names() {
    let mut rt = ThreadRuntime::new();
    let mut exe = Executor::new(&mut rt);
    exe.register(&mut rt).unwrap();
    assert_eq!(exe.spawn(&rt), Ok(1));
    assert_eq!(exe.spawn(&rt), Ok(2));
    let mut finished = Vec::new();
    let first = run_one(&mut rt, &mut exe, PollState::Pending, &mut finished).unwrap();
    assert_eq!(first, (1, "Task_1".to_string(), 1));
    let second = run_one(&mut rt, &mut exe, PollState::Ready, &mut finished).unwrap();
    assert_eq!(second, (2, "Task_2".to_string(), 2));
    assert_eq!(finished, vec![2]);
    assert_eq!(Executor::task_id(&rt), 0);
    assert_eq!(Executor::task_name(&rt), "");
    assert_eq!(exe.pop_runnable(), None);
}

#[test]
fn finished_tasks_are_dropped_and_skipped() {
    let mut rt = ThreadRuntime::new();
    let mut exe = Executor::new(&mut rt);
    exe.register(&mut rt).unwrap();
    exe.spawn(&rt).unwrap();
    exe.spawn(&rt).unwrap();
    let mut finished = Vec::new();
    run_one(&mut rt, &mut exe, PollState::Ready, &mut finished).unwrap();
    run_one(&mut rt, &mut exe, PollState::Pending, &mut finished).unwrap();
    exe.remove_finished(&finished);
    // task 1 finished: a stale wake of it is dropped when the queue is read
    assert_eq!(Executor::resume_task(&rt, &mut exe, 1), Ok(()));
    assert_eq!(Executor::resume_task(&rt, &mut exe, 2), Ok(()));
    assert_eq!(exe.pop_runnable(), Some(2));
    assert_eq!(exe.pop_runnable(), None);
}

#[test]
fn resume_fails_while_a_task_is_polled() {
    let mut rt = ThreadRuntime::new();
    let mut exe = Executor::new(&mut rt);
    exe.register(&mut rt).unwrap();
    exe.spawn(&rt).unwrap();
    let id = exe.pop_runnable().unwrap();
    Executor::process_run_queue_begin(&mut rt, &mut exe, id);
    assert_eq!(Executor::resume_task(&rt, &mut exe, id), Err(()));
    let mut finished = Vec::new();
    Executor::process_run_queue_end(&mut rt, &mut exe, id, PollState::Pending, &mut finished);
    assert_eq!(Executor::resume_task(&rt, &mut exe, id), Ok(()));
    assert_eq!(exe.pop_runnable(), Some(id));
}

#[test]
fn resume_fails_without_registration() {
    let mut rt = ThreadRuntime::new();
    let mut exe = Executor::new(&mut rt);
    assert_eq!(Executor::resume_task(&rt, &mut exe, 7), Err(()));
    assert_eq!(exe.pop_runnable(), None);
}

#[test]
fn sleep_deadline_is_one_tick_per_fifty_micros() {
    let mut rt = ThreadRuntime::new();
    assert_eq!(Executor::sleep(&rt, 1).until_clock(), 1);
    assert_eq!(Executor::sleep(&rt, 0).until_clock(), 1);
    assert_eq!(Executor::sleep(&rt, 49).until_clock(), 1);
    assert_eq!(Executor::sleep(&rt, 100).until_clock(), 2);
    assert_eq!(Executor::sleep(&rt, 1_000_000).until_clock(), 20_000);
    tick(&mut rt, 5);
    assert_eq!(Executor::sleep(&rt, 3).until_clock(), 6);
    assert_eq!(Executor::sleep(&rt, 250).until_clock(), 10);
    // the duration is cut to 64 bits first
    assert_eq!(Executor::sleep(&rt, (1u128 << 64) + 100).until_clock(), 7);
}

#[test]
fn sleep_poll_is_ready_once_due() {
    let mut rt = ThreadRuntime::new();
    let mut exe = Executor::new(&mut rt);
    exe.register(&mut rt).unwrap();
    tick(&mut rt, 3);
    assert_eq!(TaskSleep::new(3).poll(&rt, &mut exe, 1), PollState::Ready);
    assert_eq!(TaskSleep::new(2).poll(&rt, &mut exe, 1), PollState::Ready);
    assert_eq!(TaskSleep::new(4).poll(&rt, &mut exe, 1), PollState::Pending);
}

#[test]
fn sleep_poll_without_registration_is_ready() {
    let mut rt = ThreadRuntime::new();
    let mut exe = Executor::new(&mut rt);
    assert_eq!(TaskSleep::new(4).poll(&rt, &mut exe, 1), PollState::Ready);
}

#[test]
fn sleeping_task_is_woken_by_deadline() {
    let mut rt = ThreadRuntime::new();
    let mut exe = Executor::new(&mut rt);
    exe.register(&mut rt).unwrap();
    exe.spawn(&rt).unwrap();
    let mut finished = Vec::new();
    let id = exe.pop_runnable().unwrap();
    Executor::process_run_queue_begin(&mut rt, &mut exe, id);
    let s = Executor::sleep(&rt, 150);
    assert_eq!(s.until_clock(), 3);
    assert_eq!(s.poll(&rt, &mut exe, id), PollState::Pending);
    Executor::process_run_queue_end(&mut rt, &mut exe, id, PollState::Pending, &mut finished);
    for _ in 0..3 {
        Executor::process_sleep_mod(&rt, &mut exe);
        assert_eq!(exe.pop_runnable(), None);
        thread_runtime_wall_clock_inc(&mut rt);
    }
    Executor::process_sleep_mod(&rt, &mut exe);
    assert_eq!(exe.pop_runnable(), Some(id));
    assert_eq!(s.poll(&rt, &mut exe, id), PollState::Ready);
}

#[test]
fn late_wake_up_still_wakes() {
    let mut rt = ThreadRuntime::new();
    let mut exe = Executor::new(&mut rt);
    exe.register(&mut rt).unwrap();
    exe.spawn(&rt).unwrap();
    exe.spawn(&rt).unwrap();
    assert_eq!(TaskSleep::new(2).poll(&rt, &mut exe, 1), PollState::Pending);
    assert_eq!(TaskSleep::new(1).poll(&rt, &mut exe, 2), PollState::Pending);
    assert_eq!(exe.pop_runnable(), Some(1));
    assert_eq!(exe.pop_runnable(), Some(2));
    tick(&mut rt, 10);
    Executor::process_sleep_mod(&rt, &mut exe);
    // earlier deadline first
    assert_eq!(exe.pop_runnable(), Some(2));
    assert_eq!(exe.pop_runnable(), Some(1));
}

#[test]
fn sleep_beyond_a_full_ring_turn_fires_early() {
    let mut rt = ThreadRuntime::new();
    let mut exe = Executor::new(&mut rt);
    exe.register(&mut rt).unwrap();
    exe.spawn(&rt).unwrap();
    let deadline = SLEEP_RING_SLOTS as u64 + 2;
    assert_eq!(TaskSleep::new(deadline).poll(&rt, &mut exe, 1), PollState::Pending);
    assert_eq!(exe.pop_runnable(), Some(1));
    tick(&mut rt, 2);
    Executor::process_sleep_mod(&rt, &mut exe);
    assert_eq!(exe.pop_runnable(), Some(1));
}

#[test]
fn waking_a_handle_resumes_its_task() {
    let mut rt = ThreadRuntime::new();
    let mut exe = Executor::new(&mut rt);
    exe.register(&mut rt).unwrap();
    exe.spawn(&rt).unwrap();
    assert_eq!(exe.pop_runnable(), Some(1));
    let h = Rc::new(TaskHandle::new(1));
    h.wake_by_ref(&rt, &mut exe);
    assert_eq!(exe.pop_runnable(), Some(1));
    h.wake(&rt, &mut exe);
    assert_eq!(exe.pop_runnable(), Some(1));
    assert_eq!(exe.pop_runnable(), None);
}

#[test]
fn sleep_ring_pops_due_tasks_only() {
    let mut ring = ExeSubmodSleep::new();
    assert_eq!(ring.push_back_sleep_task(0, 5, 42), Ok(()));
    assert_eq!(ring.push_back_sleep_task(0, 5, 43), Ok(()));
    assert_eq!(ring.pop_front_sleep_task(4), None);
    assert_eq!(ring.exe_clock(), 4);
    assert_eq!(ring.pop_front_sleep_task(5), Some(42));
    assert_eq!(ring.pop_front_sleep_task(5), Some(43));
    assert_eq!(ring.pop_front_sleep_task(5), None);
    assert_eq!(ring.exe_clock(), 5);
}

#[test]
fn sleep_ring_ahead_of_wall_clock_parks_in_its_own_slot() {
    let mut ring = ExeSubmodSleep::new();
    assert_eq!(ring.pop_front_sleep_task(8), None);
    assert_eq!(ring.exe_clock(), 8);
    // wall clock behind the ring: the task goes into the ring's current slot
    assert_eq!(ring.push_back_sleep_task(3, 100, 9), Ok(()));
    assert_eq!(ring.pop_front_sleep_task(8), Some(9));
}

#[test]
fn task_names_are_decimal() {
    assert_eq!(Task::new(0).get_name(), "Task_0");
    assert_eq!(Task::new(7).get_name(), "Task_7");
    assert_eq!(Task::new(10).get_name(), "Task_10");
    assert_eq!(Task::new(1234567890).get_name(), "Task_1234567890");
    assert_eq!(Task::new(u64::MAX).get_name(), "Task_18446744073709551615");
}

#[test]
fn task_accessors() {
    let mut t = Task::new(3);
    assert_eq!(t.get_id(), 3);
    assert!(t.get_state() == TaskState::Init);
    t.set_name("worker");
    assert_eq!(t.get_name(), "worker");
    assert_eq!(t.get_id(), 3);
}

#[test]
fn parked_task_among_others_comes_out_on_time() {
    let mut ring = ExeSubmodSleep::new();
    // task 7 parked for tick 3, others around it, one in the same slot
    assert_eq!(ring.push_back_sleep_task(0, 1, 1), Ok(()));
    assert_eq!(ring.push_back_sleep_task(0, 3, 2), Ok(()));
    assert_eq!(ring.push_back_sleep_task(0, 3, 7), Ok(()));
    assert_eq!(ring.push_back_sleep_task(0, 2, 3), Ok(()));
    assert_eq!(ring.push_back_sleep_task(0, 5, 4), Ok(()));
    let mut out = Vec::new();
    for w in 0..3u64 {
        while let Some(t) = ring.pop_front_sleep_task(w) {
            assert_ne!(t, 7);
            out.push(t);
        }
    }
    assert_eq!(out, vec![1, 3]);
    assert_eq!(ring.pop_front_sleep_task(3), Some(2));
    assert_eq!(ring.pop_front_sleep_task(3), Some(7));
    assert_eq!(ring.pop_front_sleep_task(3), None);
    assert_eq!(ring.pop_front_sleep_task(9), Some(4));
}
