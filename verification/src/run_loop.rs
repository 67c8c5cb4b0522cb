use crate::runtime::{
    begin_poll_spec,
    first_live,
    end_poll_spec,
    lemma_first_live,
    pop_runnable_spec,
    remove_finished_spec,
    sleep_mod_spec,
    thread_runtime_exe_id,
    thread_runtime_wall_clock_inc,
    Executor,
    ExecutorView,
    PollState,
    RuntimeView,
    ThreadRuntime,
};
use crate::sleep::sleep_poll_spec;
use crate::sleep_ring::{lemma_drain_clock, ring_push, SleepRingView};
use crate::task::TaskView;
use vstd::prelude::*;

verus! {

/// What the caller of the run loop tells it.
#[derive(Debug, Clone, Copy)]
pub enum RunEvent {
    /// The loop starts.
    Start,
    /// The task that the loop asked for was polled, with this outcome.
    Polled(PollState),
    /// The caller has slept after a round, as the loop asked.
    Slept,
}

/// What the run loop asks its caller to do next.
#[derive(Debug)]
pub enum RunAction {
    /// Polling of the given task is due.
    Poll(u64),
    /// The round is over: drop the futures of these finished tasks and
    /// sleep; the next event is `Slept`.
    Sleep(Vec<u64>),
    /// The round is over, and another executor is registered on the thread:
    /// drop the futures of these finished tasks, have the registered
    /// executor wake its sleeping tasks that have fallen due
    /// (`Executor::process_sleep_mod`), and sleep; the next event is `Slept`.
    WakeRegisteredThenSleep(Vec<u64>),
}

/// What the run loop asks, as plain values.
pub enum RunActionView {
    Poll(u64),
    Sleep(Seq<u64>),
    WakeRegisteredThenSleep(Seq<u64>),
}

impl View for RunAction {
    type V = RunActionView;

    open spec fn view(&self) -> RunActionView {
        match self {
            RunAction::Poll(id) => RunActionView::Poll(*id),
            RunAction::Sleep(ids) => RunActionView::Sleep(ids@),
            RunAction::WakeRegisteredThenSleep(ids) => RunActionView::WakeRegisteredThenSleep(ids@),
        }
    }
}

/// The finished tasks that an action ending a round hands back, if it ends
/// one.
pub open spec fn round_end_finished(a: RunActionView) -> Option<Seq<u64>> {
    match a {
        RunActionView::Poll(_) => None,
        RunActionView::Sleep(f) => Some(f),
        RunActionView::WakeRegisteredThenSleep(f) => Some(f),
    }
}

/// The run loop's own state: the tasks that finished in this round, and the
/// task being polled, if any.
pub struct RunLoopView {
    pub finished: Seq<u64>,
    pub polling: Option<u64>,
}

/// The state of an executor's run loop between two steps.
pub struct RunLoop {
    finished: Vec<u64>,
    polling: Option<u64>,
}

impl View for RunLoop {
    type V = RunLoopView;

    closed spec fn view(&self) -> RunLoopView {
        RunLoopView { finished: self.finished@, polling: self.polling }
    }
}

/// The loop's state before it starts.
pub open spec fn initial_run_loop() -> RunLoopView {
    RunLoopView { finished: Seq::empty(), polling: None }
}

/// The state of thread, executor and finished tasks once the reported event
/// has been taken in: a poll is ended, or a slept round advances the wall
/// clock by one tick.
pub open spec fn take_event_spec(
    rt: RuntimeView,
    e: ExecutorView,
    st: RunLoopView,
    event: RunEvent,
) -> (RuntimeView, ExecutorView, Seq<u64>) {
    match event {
        RunEvent::Start => (rt, e, st.finished),
        RunEvent::Slept => (RuntimeView { wall_clock: (rt.wall_clock + 1) as u64, ..rt }, e, st.finished),
        RunEvent::Polled(outcome) => end_poll_spec(rt, e, st.polling->Some_0, outcome, st.finished),
    }
}

/// One step of the run loop: take in the event, then take the next task to
/// poll off the run queue and ask for it to be polled; where none is left,
/// end the round: drop the finished tasks, wake the sleeping tasks of the
/// executor registered on the thread that have fallen due, and ask the caller
/// to sleep. The sleeping tasks of this executor are woken here when it is
/// the one registered; when another one is, the caller is asked to wake
/// that one's (the thread reaches its sleep module, not this one's); when
/// none is, no task is woken.
pub open spec fn run_step_spec(
    rt: RuntimeView,
    e: ExecutorView,
    st: RunLoopView,
    event: RunEvent,
) -> (RuntimeView, ExecutorView, RunLoopView, RunActionView) {
    let (rt1, e1, finished) = take_event_spec(rt, e, st, event);
    let (next, e2) = pop_runnable_spec(e1);
    match next {
        Some(id) => {
            let (rt3, e3) = begin_poll_spec(rt1, e2, id);
            (rt3, e3, RunLoopView { finished, polling: Some(id) }, RunActionView::Poll(id))
        },
        None => {
            let e3 = sleep_mod_spec(rt1, remove_finished_spec(e2, finished));
            let action = match rt1.exe_registered {
                Some(other) if other != e.exe_id => RunActionView::WakeRegisteredThenSleep(finished),
                _ => RunActionView::Sleep(finished),
            };
            (rt1, e3, initial_run_loop(), action)
        },
    }
}

/// What the caller did with one poll that the run loop asked for: the
/// outcome it tells the loop, and, where the task polled a sleep that is due
/// at a later tick (so the sleep parked the task), that tick.
pub struct PollReport {
    pub outcome: PollState,
    pub parks_until: Option<u64>,
}

/// A stretch of run loop steps, each fed the state the one before returned:
/// where a step asks for a poll, the next report says what the poll did
/// (the sleep it parked the task on, through `sleep_poll_spec`, then its
/// outcome). The stretch stops at the step that ends the round, or when the
/// reports run out. Gives the final state and every action asked for.
pub open spec fn run_steps(
    rt: RuntimeView,
    e: ExecutorView,
    st: RunLoopView,
    event: RunEvent,
    reports: Seq<PollReport>,
) -> (RuntimeView, ExecutorView, RunLoopView, Seq<RunActionView>)
    decreases reports.len(),
{
    let (rt1, e1, st1, action) = run_step_spec(rt, e, st, event);
    match action {
        RunActionView::Poll(id) => {
            if reports.len() == 0 {
                (rt1, e1, st1, seq![action])
            } else {
                let e2 = match reports[0].parks_until {
                    Some(u) => sleep_poll_spec(rt1, e1, u, id).1,
                    None => e1,
                };
                let (rt3, e3, st3, more) = run_steps(
                    rt1,
                    e2,
                    st1,
                    RunEvent::Polled(reports[0].outcome),
                    reports.drop_first(),
                );
                (rt3, e3, st3, seq![action] + more)
            }
        },
        _ => (rt1, e1, st1, seq![action]),
    }
}

/// The ids of `q`, in order, that name a task of `tasks`.
pub open spec fn live_ids(q: Seq<u64>, tasks: Map<u64, TaskView>) -> Seq<u64>
    decreases q.len(),
{
    if q.len() == 0 {
        Seq::empty()
    } else if tasks.contains_key(q[0]) {
        seq![q[0]] + live_ids(q.drop_first(), tasks)
    } else {
        live_ids(q.drop_first(), tasks)
    }
}

/// The ids, in order, whose poll was reported ready.
pub open spec fn ready_ids(ids: Seq<u64>, reports: Seq<PollReport>) -> Seq<u64>
    decreases ids.len(),
{
    if ids.len() == 0 || reports.len() == 0 {
        Seq::empty()
    } else {
        (if reports[0].outcome == PollState::Ready {
            seq![ids[0]]
        } else {
            Seq::empty()
        }) + ready_ids(ids.drop_first(), reports.drop_first())
    }
}

/// The sleep ring once each task of `ids`, in order, has been parked as its
/// report says, at wall clock `latest` (a sleep already due parks nothing).
pub open spec fn park_all(
    ring: SleepRingView,
    latest: u64,
    ids: Seq<u64>,
    reports: Seq<PollReport>,
) -> SleepRingView
    decreases ids.len(),
{
    if ids.len() == 0 || reports.len() == 0 {
        ring
    } else {
        let next = match reports[0].parks_until {
            Some(u) => if u > latest {
                ring_push(ring, latest, (u - latest) as u64, ids[0])
            } else {
                ring
            },
            None => ring,
        };
        park_all(next, latest, ids.drop_first(), reports.drop_first())
    }
}

/// What `first_live` finds is the first of `live_ids`.
pub proof fn lemma_first_live_is_first_of_live_ids(q: Seq<u64>, tasks: Map<u64, TaskView>, from: int)
    requires
        0 <= from <= q.len(),
    ensures
        match first_live(q, tasks, from) {
            Some(k) => from <= k < q.len() && live_ids(q.skip(from), tasks) == seq![q[k]]
                + live_ids(q.skip(k + 1), tasks),
            None => live_ids(q.skip(from), tasks) == Seq::<u64>::empty(),
        },
    decreases q.len() - from,
{
    if from < q.len() {
        assert(q.skip(from).drop_first() =~= q.skip(from + 1));
        if !tasks.contains_key(q[from]) {
            lemma_first_live_is_first_of_live_ids(q, tasks, from + 1);
        }
    }
}

/// The run loop is in step with its executor and thread: a task is being
/// polled exactly when the run queue is held, and the sleep ring of the
/// executor registered on the thread is not ahead of the wall clock.
pub open spec fn run_loop_consistent(rt: RuntimeView, e: ExecutorView, st: RunLoopView) -> bool {
    &&& (st.polling is Some <==> e.run_queue_in_use)
    &&& (rt.exe_registered == Some(e.exe_id) ==> e.sleep.exe_clock <= rt.wall_clock)
}

impl RunLoop {
    /// The loop's state before it starts.
    pub fn new() -> (st: Self)
        ensures
            st@ == initial_run_loop(),
    {
        RunLoop { finished: Vec::new(), polling: None }
    }

    /// One step of the run loop of `exe` on thread `rt` (see
    /// `run_step_spec`).
    pub fn run_step(
        &mut self,
        rt: &mut ThreadRuntime,
        exe: &mut Executor,
        event: RunEvent,
    ) -> (action: RunAction)
        requires
            old(exe).wf(),
            run_loop_consistent(old(rt)@, old(exe)@, old(self)@),
            old(self)@.polling is Some <==> event is Polled,
            event is Slept ==> old(rt)@.wall_clock < u64::MAX,
        ensures
            final(exe).wf(),
            run_loop_consistent(final(rt)@, final(exe)@, final(self)@),
            (final(rt)@, final(exe)@, final(self)@, action@) == run_step_spec(
                old(rt)@,
                old(exe)@,
                old(self)@,
                event,
            ),
    {
        match event {
            RunEvent::Start => {},
            RunEvent::Slept => {
                thread_runtime_wall_clock_inc(rt);
            },
            RunEvent::Polled(outcome) => {
                let id = match self.polling {
                    Some(id) => id,
                    None => 0,
                };
                Executor::process_run_queue_end(rt, exe, id, outcome, &mut self.finished);
                self.polling = None;
            },
        }
        let ghost e1 = exe@;
        match exe.pop_runnable() {
            Some(id) => {
                proof {
                    lemma_first_live(e1.run_queue, e1.tasks, 0);
                }
                Executor::process_run_queue_begin(rt, exe, id);
                self.polling = Some(id);
                RunAction::Poll(id)
            },
            None => {
                let mut finished: Vec<u64> = Vec::new();
                std::mem::swap(&mut finished, &mut self.finished);
                exe.remove_finished(&finished);
                let ghost e3 = exe@;
                Executor::process_sleep_mod(rt, exe);
                proof {
                    if rt@.exe_registered == Some(e3.exe_id) {
                        lemma_drain_clock(e3.sleep, rt@.wall_clock);
                    }
                }
                let registered = thread_runtime_exe_id(rt);
                match registered {
                    Some(other) => {
                        if other != exe.exe_id() {
                            RunAction::WakeRegisteredThenSleep(finished)
                        } else {
                            RunAction::Sleep(finished)
                        }
                    },
                    None => RunAction::Sleep(finished),
                }
            },
        }
    }
}

} // verus!
