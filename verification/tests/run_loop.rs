use sched::run_loop::{RunAction, RunEvent, RunLoop};
use sched::runtime::{
    thread_runtime_wall_clock, thread_runtime_wall_clock_inc, Executor, PollState, ThreadRuntime,
};

fn expect_poll(a: RunAction) -> u64 {
    match a {
        RunAction::Poll(id) => id,
        other => panic!("expected a poll, got {:?}", other),
    }
}

fn expect_sleep(a: RunAction) -> Vec<u64> {
    match a {
        RunAction::Sleep(done) => done,
        other => panic!("expected a sleep, got {:?}", other),
    }
}

#[test]
fn run_loop_on_an_idle_executor_sleeps() {
    let mut rt = ThreadRuntime::new();
    let mut exe = Executor::new(&mut rt);
    exe.register(&mut rt).unwrap();
    let mut st = RunLoop::new();
    assert_eq!(expect_sleep(st.run_step(&mut rt, &mut exe, RunEvent::Start)), Vec::<u64>::new());
    assert_eq!(expect_sleep(st.run_step(&mut rt, &mut exe, RunEvent::Slept)), Vec::<u64>::new());
    assert_eq!(thread_runtime_wall_clock(&rt), 1);
}

#[test]
fn run_loop_polls_tasks_and_drops_finished_ones() {
    let mut rt = ThreadRuntime::new();
    let mut exe = Executor::new(&mut rt);
    exe.register(&mut rt).unwrap();
    exe.spawn(&rt).unwrap();
    exe.spawn(&rt).unwrap();
    let mut st = RunLoop::new();

    let id = expect_poll(st.run_step(&mut rt, &mut exe, RunEvent::Start));
    assert_eq!(id, 1);
    assert_eq!(Executor::task_id(&rt), 1);
    assert_eq!(Executor::task_name(&rt), "Task_1");
    let id = expect_poll(st.run_step(&mut rt, &mut exe, RunEvent::Polled(PollState::Ready)));
    assert_eq!(id, 2);
    assert_eq!(Executor::task_name(&rt), "Task_2");
    // task 2 wakes itself while polled: the run queue is held, the wake is lost
    assert_eq!(Executor::resume_task(&rt, &mut exe, 2), Err(()));
    let done = expect_sleep(st.run_step(&mut rt, &mut exe, RunEvent::Polled(PollState::Pending)));
    assert_eq!(done, vec![1]);
    assert_eq!(Executor::task_id(&rt), 0);
    assert_eq!(Executor::task_name(&rt), "");
    // a stale wake of the finished task is dropped when the queue is read
    assert_eq!(Executor::resume_task(&rt, &mut exe, 1), Ok(()));
    assert_eq!(expect_sleep(st.run_step(&mut rt, &mut exe, RunEvent::Slept)), Vec::<u64>::new());
}

#[test]
fn run_loop_wakes_sleeping_tasks_on_time() {
    // two tasks: A sleeps one tick per round, B sleeps until tick 2
    let mut rt = ThreadRuntime::new();
    let mut exe = Executor::new(&mut rt);
    exe.register(&mut rt).unwrap();
    exe.spawn(&rt).unwrap();
    exe.spawn(&rt).unwrap();
    let mut st = RunLoop::new();

    let a = expect_poll(st.run_step(&mut rt, &mut exe, RunEvent::Start));
    let sa = Executor::sleep(&rt, 1);
    assert_eq!(sa.until_clock(), 1);
    assert_eq!(sa.poll(&rt, &mut exe, a), PollState::Pending);
    let b = expect_poll(st.run_step(&mut rt, &mut exe, RunEvent::Polled(PollState::Pending)));
    let sb = Executor::sleep(&rt, 100);
    assert_eq!(sb.until_clock(), 2);
    assert_eq!(sb.poll(&rt, &mut exe, b), PollState::Pending);
    assert!(expect_sleep(st.run_step(&mut rt, &mut exe, RunEvent::Polled(PollState::Pending))).is_empty());

    // sleepers are woken at the end of a round, and run in the next one
    // tick 1: A falls due and is put back on the run queue
    assert!(expect_sleep(st.run_step(&mut rt, &mut exe, RunEvent::Slept)).is_empty());
    assert_eq!(thread_runtime_wall_clock(&rt), 1);

    // tick 2: A runs and finishes; B falls due
    let id = expect_poll(st.run_step(&mut rt, &mut exe, RunEvent::Slept));
    assert_eq!(thread_runtime_wall_clock(&rt), 2);
    assert_eq!(id, a);
    assert_eq!(sa.poll(&rt, &mut exe, a), PollState::Ready);
    assert_eq!(expect_sleep(st.run_step(&mut rt, &mut exe, RunEvent::Polled(PollState::Ready))), vec![a]);

    // tick 3: B runs and finishes
    let id = expect_poll(st.run_step(&mut rt, &mut exe, RunEvent::Slept));
    assert_eq!(thread_runtime_wall_clock(&rt), 3);
    assert_eq!(id, b);
    assert_eq!(sb.poll(&rt, &mut exe, b), PollState::Ready);
    assert_eq!(expect_sleep(st.run_step(&mut rt, &mut exe, RunEvent::Polled(PollState::Ready))), vec![b]);
    assert_eq!(exe.pop_runnable(), None);
}

#[test]
fn run_loop_of_an_unregistered_executor_asks_to_wake_the_registered_one() {
    let mut rt = ThreadRuntime::new();
    let mut a = Executor::new(&mut rt);
    let mut b = Executor::new(&mut rt);
    a.register(&mut rt).unwrap();
    a.spawn(&rt).unwrap();
    // b's task was spawned while b was registered
    a.unregister(&mut rt).unwrap();
    b.register(&mut rt).unwrap();
    b.spawn(&rt).unwrap();
    b.unregister(&mut rt).unwrap();
    a.register(&mut rt).unwrap();
    // a sleeper of the registered executor a
    assert_eq!(a.pop_runnable(), Some(1));
    assert_eq!(sched::sleep::TaskSleep::new(1).poll(&rt, &mut a, 1), PollState::Pending);
    thread_runtime_wall_clock_inc(&mut rt);

    let mut st = RunLoop::new();
    let id = expect_poll(st.run_step(&mut rt, &mut b, RunEvent::Start));
    assert_eq!(id, 1);
    match st.run_step(&mut rt, &mut b, RunEvent::Polled(PollState::Ready)) {
        RunAction::WakeRegisteredThenSleep(done) => assert_eq!(done, vec![1]),
        other => panic!("expected a wake of the registered executor, got {:?}", other),
    }
    // the caller wakes the registered executor's sleepers
    Executor::process_sleep_mod(&rt, &mut a);
    assert_eq!(a.pop_runnable(), Some(1));
}

#[test]
fn sleeper_among_busy_tasks_is_polled_in_the_round_after_its_tick() {
    // task 1 sleeps until tick 3; task 2 runs every round, sleeping one tick
    let mut rt = ThreadRuntime::new();
    let mut exe = Executor::new(&mut rt);
    exe.register(&mut rt).unwrap();
    exe.spawn(&rt).unwrap();
    exe.spawn(&rt).unwrap();
    let mut st = RunLoop::new();
    let mut event = RunEvent::Start;
    let mut polled_in_round: Vec<(u64, Vec<u64>)> = Vec::new();
    let mut round: Vec<u64> = Vec::new();
    for _ in 0..40 {
        match st.run_step(&mut rt, &mut exe, event) {
            RunAction::Poll(id) => {
                round.push(id);
                let until = if id == 1 { 3 } else { thread_runtime_wall_clock(&rt) + 1 };
                let outcome = if id == 1 && thread_runtime_wall_clock(&rt) >= 3 {
                    PollState::Ready
                } else {
                    sched::sleep::TaskSleep::new(until).poll(&rt, &mut exe, id)
                };
                event = RunEvent::Polled(outcome);
            }
            other => {
                let _ = other;
                polled_in_round.push((thread_runtime_wall_clock(&rt), round.clone()));
                round.clear();
                if thread_runtime_wall_clock(&rt) == 5 {
                    break;
                }
                event = RunEvent::Slept;
            }
        }
    }
    let task1_rounds: Vec<u64> =
        polled_in_round.iter().filter(|(_, ids)| ids.contains(&1)).map(|(w, _)| *w).collect();
    assert_eq!(task1_rounds, vec![0, 4]);
    let task2_rounds: Vec<u64> =
        polled_in_round.iter().filter(|(_, ids)| ids.contains(&2)).map(|(w, _)| *w).collect();
    assert_eq!(task2_rounds, vec![0, 2, 4]);
}

#[test]
fn task_ids_run_one_two_three_and_failed_spawns_use_none() {
    let mut rt = ThreadRuntime::new();
    let mut exe = Executor::new(&mut rt);
    assert_eq!(exe.spawn(&rt), Err(()));
    exe.register(&mut rt).unwrap();
    assert_eq!(exe.spawn(&rt), Ok(1));
    assert_eq!(exe.spawn(&rt), Ok(2));
    let mut st = RunLoop::new();
    expect_poll(st.run_step(&mut rt, &mut exe, RunEvent::Start));
    expect_poll(st.run_step(&mut rt, &mut exe, RunEvent::Polled(PollState::Ready)));
    let done = expect_sleep(st.run_step(&mut rt, &mut exe, RunEvent::Polled(PollState::Ready)));
    assert_eq!(done, vec![1, 2]);
    exe.unregister(&mut rt).unwrap();
    assert_eq!(exe.spawn(&rt), Err(()));
    exe.register(&mut rt).unwrap();
    assert_eq!(exe.spawn(&rt), Ok(3));
}
