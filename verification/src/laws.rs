use crate::runtime::{
    begin_poll_spec,
    pop_runnable_spec,
    register_spec,
    remove_finished_spec,
    resume_spec,
    sleep_deadline,
    sleep_mod_spec,
    spawn_spec,
    unregister_spec,
    end_poll_spec,
    first_live,
    lemma_first_live,
    ExecutorView,
    PollState,
    RuntimeView,
};
use crate::run_loop::{
    initial_run_loop,
    lemma_first_live_is_first_of_live_ids,
    live_ids,
    park_all,
    ready_ids,
    run_steps,
    PollReport,
    round_end_finished,
    run_step_spec,
    take_event_spec,
    RunActionView,
    RunEvent,
    RunLoopView,
};
use crate::sleep::sleep_poll_spec;
use crate::task::{decimal_value, is_digit, law_default_name_spells_id, TaskView};
use crate::sleep_ring::{
    lemma_drain_after_deadline,
    lemma_drain_before_deadline,
    lemma_drain_clock,
    lemma_push_keeps_parked,
    lemma_push_parks_at,
    parked_at,
    ring_drain,
    ring_push,
    SleepRingView,
    lemma_parked_task_sleeps_until_deadline,
    lemma_parked_task_wakes_by_deadline,
    total_parked,
    SLEEP_RING_SLOTS,
};
use vstd::prelude::*;

verus! {

/// Registering an executor on a thread where none is registered succeeds,
/// and unregistering it again gives back the thread as it was.
pub proof fn law_register_then_unregister(rt: RuntimeView, exe_id: u32)
    requires
        rt.exe_registered is None,
    ensures
        register_spec(rt, exe_id).0 is Ok,
        unregister_spec(register_spec(rt, exe_id).1, exe_id) == (Ok::<(), ()>(()), rt),
{
}

/// While an executor is registered on a thread, registering any executor is
/// refused and changes nothing, and only the registered executor can
/// unregister.
pub proof fn law_registration_is_exclusive(rt: RuntimeView, other: u32)
    requires
        rt.exe_registered is Some,
    ensures
        register_spec(rt, other) == (Err::<(), ()>(()), rt),
        rt.exe_registered != Some(other) ==> unregister_spec(rt, other) == (Err::<(), ()>(()), rt),
{
}

/// A task spawned on an executor with an empty run queue is the next task
/// polled.
pub proof fn law_spawned_task_runs_next(rt: RuntimeView, e: ExecutorView)
    requires
        rt.exe_registered == Some(e.exe_id),
        e.run_queue.len() == 0,
    ensures
        spawn_spec(rt, e).0 == Ok::<u64, ()>(e.next_task_id),
        pop_runnable_spec(spawn_spec(rt, e).1).0 == Some(e.next_task_id),
        pop_runnable_spec(spawn_spec(rt, e).1).1.run_queue.len() == 0,
{
    let e1 = spawn_spec(rt, e).1;
    assert(e1.run_queue =~= seq![e.next_task_id]);
    assert(e1.tasks.contains_key(e.next_task_id));
}

/// Tasks on the run queue are polled in the order in which they were put
/// there: a task resumed behind live tasks comes out after them.
pub proof fn law_run_queue_is_fifo(rt: RuntimeView, e: ExecutorView, id: u64)
    requires
        rt.exe_registered == Some(e.exe_id),
        !e.run_queue_in_use,
        e.run_queue.len() > 0,
        e.tasks.contains_key(e.run_queue[0]),
    ensures
        pop_runnable_spec(resume_spec(rt, e, id).1).0 == Some(e.run_queue[0]),
        pop_runnable_spec(resume_spec(rt, e, id).1).1.run_queue == e.run_queue.skip(1).push(id),
{
    let e1 = resume_spec(rt, e, id).1;
    assert(e1.run_queue[0] == e.run_queue[0]);
    assert(e1.run_queue.skip(1) =~= e.run_queue.skip(1).push(id));
}

/// The task that the run queue hands out exists on the executor.
pub proof fn law_popped_task_exists(e: ExecutorView)
    ensures
        pop_runnable_spec(e).0 matches Some(id) ==> e.tasks.contains_key(id),
{
    if let Some(k) = first_live(e.run_queue, e.tasks, 0) {
        lemma_first_live(e.run_queue, e.tasks, 0);
    }
}

/// A task whose poll ended ready is gone from the executor once the
/// finished tasks of the round are dropped.
pub proof fn law_finished_task_is_dropped(
    rt: RuntimeView,
    e: ExecutorView,
    id: u64,
    finished: Seq<u64>,
)
    ensures
        ({
            let (rt1, e1, f1) = end_poll_spec(rt, e, id, PollState::Ready, finished);
            !remove_finished_spec(e1, f1).tasks.contains_key(id)
        }),
{
    finished.lemma_push_to_set_commute(id);
}

/// A step of the run loop started over a run queue whose head is a live
/// task asks for that task to be polled, and while it is polled the thread
/// reports it, by id and name, as the running task.
pub proof fn law_run_step_polls_head_of_queue(rt: RuntimeView, e: ExecutorView, st: RunLoopView)
    requires
        e.run_queue.len() > 0,
        e.tasks.contains_key(e.run_queue[0]),
    ensures
        ({
            let id = e.run_queue[0];
            let (rt1, e1, st1, action) = run_step_spec(rt, e, st, RunEvent::Start);
            &&& action == RunActionView::Poll(id)
            &&& st1.polling == Some(id)
            &&& rt1.task_id_running == id
            &&& rt1.task_name_running == e.tasks[id].name
            &&& e1.run_queue_in_use
        }),
{
    assert(first_live(e.run_queue, e.tasks, 0) == Some(0int));
}

/// When the task being polled finishes and no live task is left on the run
/// queue, the round ends: the task is dropped from the executor and handed
/// back among the finished tasks, whose futures the caller drops.
pub proof fn law_finished_task_leaves_at_round_end(
    rt: RuntimeView,
    e: ExecutorView,
    st: RunLoopView,
    id: u64,
)
    requires
        st.polling == Some(id),
        first_live(e.run_queue, e.tasks, 0) is None,
    ensures
        ({
            let (rt1, e1, st1, action) = run_step_spec(rt, e, st, RunEvent::Polled(PollState::Ready));
            &&& round_end_finished(action) == Some(st.finished.push(id))
            &&& !e1.tasks.contains_key(id)
            &&& st1 == initial_run_loop()
            &&& !e1.run_queue_in_use
        }),
{
    st.finished.lemma_push_to_set_commute(id);
    let e1 = ExecutorView { run_queue_in_use: false, ..e };
    assert(first_live(e1.run_queue, e1.tasks, 0) is None);
    let e2 = remove_finished_spec(pop_runnable_spec(e1).1, st.finished.push(id));
    assert(sleep_mod_spec(take_event_spec(rt, e, st, RunEvent::Polled(PollState::Ready)).0, e2).tasks
        == e2.tasks);
}

/// A sleep is never due at the tick at which it is made: polled at once on
/// the executor registered on the thread, it parks the task and is pending.
pub proof fn law_sleep_is_not_ready_at_once(
    rt: RuntimeView,
    e: ExecutorView,
    duration_micros: u128,
    task: u64,
)
    requires
        rt.exe_registered == Some(e.exe_id),
        sleep_deadline(rt.wall_clock, duration_micros) <= u64::MAX,
    ensures
        sleep_poll_spec(
            rt,
            e,
            sleep_deadline(rt.wall_clock, duration_micros) as u64,
            task,
        ).0 == PollState::Pending,
{
}

/// A task that sleeps until tick `until` on the executor registered on its
/// thread is put back on the run queue once the wall clock has reached
/// `until` and the executor wakes its sleeping tasks, and it is the only
/// task woken (here no other task sleeps).
pub proof fn law_sleeping_task_is_woken_by_deadline(
    rt: RuntimeView,
    e: ExecutorView,
    until: u64,
    task: u64,
    later: RuntimeView,
)
    requires
        rt.exe_registered == Some(e.exe_id),
        later.exe_registered == rt.exe_registered,
        e.sleep.slots.len() == SLEEP_RING_SLOTS,
        total_parked(e.sleep.slots) == 0,
        e.sleep.exe_clock <= rt.wall_clock < until <= later.wall_clock,
    ensures
        ({
            let (p, e1) = sleep_poll_spec(rt, e, until, task);
            let e2 = ExecutorView { run_queue_in_use: false, ..e1 };
            &&& p == PollState::Pending
            &&& sleep_mod_spec(later, e2).run_queue == e1.run_queue.push(task)
            &&& total_parked(sleep_mod_spec(later, e2).sleep.slots) == 0
        }),
{
    let offset = (until - rt.wall_clock) as u64;
    lemma_parked_task_wakes_by_deadline(e.sleep, rt.wall_clock, offset, task, later.wall_clock);
    let e1 = sleep_poll_spec(rt, e, until, task).1;
    assert(e1.run_queue + seq![task] =~= e1.run_queue.push(task));
}

/// A task that sleeps until tick `until` on the executor registered on its
/// thread stays off the run queue while the wall clock is short of `until`,
/// as long as `until` lies less than a full turn of the sleep ring ahead of
/// the ring's clock.
pub proof fn law_sleeping_task_is_not_woken_early(
    rt: RuntimeView,
    e: ExecutorView,
    until: u64,
    task: u64,
    earlier: RuntimeView,
)
    requires
        rt.exe_registered == Some(e.exe_id),
        earlier.exe_registered == rt.exe_registered,
        e.sleep.slots.len() == SLEEP_RING_SLOTS,
        total_parked(e.sleep.slots) == 0,
        e.sleep.exe_clock <= rt.wall_clock < until,
        e.sleep.exe_clock <= earlier.wall_clock < until,
        until < e.sleep.exe_clock + SLEEP_RING_SLOTS,
    ensures
        ({
            let (p, e1) = sleep_poll_spec(rt, e, until, task);
            let e2 = ExecutorView { run_queue_in_use: false, ..e1 };
            sleep_mod_spec(earlier, e2).run_queue == e1.run_queue
        }),
{
    let offset = (until - rt.wall_clock) as u64;
    lemma_parked_task_sleeps_until_deadline(
        e.sleep,
        rt.wall_clock,
        offset,
        task,
        earlier.wall_clock,
    );
    let e1 = sleep_poll_spec(rt, e, until, task).1;
    assert(e1.run_queue + Seq::<u64>::empty() =~= e1.run_queue);
}

/// Every task of the executor has an id below the next one it hands out.
pub open spec fn ids_below_next(e: ExecutorView) -> bool {
    forall|k: u64| #[trigger] e.tasks.contains_key(k) ==> k < e.next_task_id
}

/// Task ids: a spawn that succeeds hands out the executor's next id, which
/// names no task yet, and moves the next id on by one; a spawn that fails
/// uses no id. So, from a new executor (next id 1, no task), successful
/// spawns get 1, 2, 3, ... in call order, none reused (up to the last
/// 64-bit id).
pub proof fn law_spawn_hands_out_fresh_ids(rt: RuntimeView, e: ExecutorView)
    requires
        ids_below_next(e),
        e.next_task_id < u64::MAX,
    ensures
        match spawn_spec(rt, e) {
            (Ok(id), e1) => {
                &&& id == e.next_task_id
                &&& !e.tasks.contains_key(id)
                &&& e1.next_task_id == id + 1
                &&& ids_below_next(e1)
            },
            (Err(()), e1) => e1 == e,
        },
{
}

/// Nothing but a spawn touches the next task id, and nothing but a spawn
/// adds a task: every other operation keeps `ids_below_next`.
pub proof fn law_other_operations_keep_ids(
    rt: RuntimeView,
    e: ExecutorView,
    st: RunLoopView,
    event: RunEvent,
    id: u64,
    outcome: PollState,
    finished: Seq<u64>,
    until: u64,
)
    requires
        ids_below_next(e),
    ensures
        resume_spec(rt, e, id).1.next_task_id == e.next_task_id,
        ids_below_next(resume_spec(rt, e, id).1),
        pop_runnable_spec(e).1.next_task_id == e.next_task_id,
        ids_below_next(pop_runnable_spec(e).1),
        begin_poll_spec(rt, e, id).1.next_task_id == e.next_task_id,
        ids_below_next(begin_poll_spec(rt, e, id).1),
        end_poll_spec(rt, e, id, outcome, finished).1.next_task_id == e.next_task_id,
        ids_below_next(end_poll_spec(rt, e, id, outcome, finished).1),
        remove_finished_spec(e, finished).next_task_id == e.next_task_id,
        ids_below_next(remove_finished_spec(e, finished)),
        sleep_mod_spec(rt, e).next_task_id == e.next_task_id,
        ids_below_next(sleep_mod_spec(rt, e)),
        sleep_poll_spec(rt, e, until, id).1.next_task_id == e.next_task_id,
        ids_below_next(sleep_poll_spec(rt, e, until, id).1),
        run_step_spec(rt, e, st, event).1.next_task_id == e.next_task_id,
        ids_below_next(run_step_spec(rt, e, st, event).1),
{
}

/// One round of the run loop of the executor registered on the thread,
/// taken from any step at which no task is being polled (the start, a slept
/// round, or the end of a poll), with the caller answering each poll as
/// `reports` says: the live ids of the run queue are polled one by one in
/// queue order (ids of tasks that no longer exist are dropped unpolled); the
/// round then ends, handing back the tasks whose poll was ready, which the
/// executor has lost; the run queue holds exactly the tasks woken from the
/// sleep ring (with the sleeps of the round parked) at the round's wall
/// clock, which is the clock after the event: one tick more after `Slept`.
pub proof fn law_run_round(
    rt: RuntimeView,
    e: ExecutorView,
    st: RunLoopView,
    event: RunEvent,
    reports: Seq<PollReport>,
)
    requires
        ({
            let (rt1, e1, f1) = take_event_spec(rt, e, st, event);
            &&& rt1.exe_registered == Some(e1.exe_id)
            &&& !e1.run_queue_in_use
            &&& reports.len() == live_ids(e1.run_queue, e1.tasks).len()
        }),
    ensures
        ({
            let (rt1, e1, f1) = take_event_spec(rt, e, st, event);
            let live = live_ids(e1.run_queue, e1.tasks);
            let latest = rt1.wall_clock;
            let finished = f1 + ready_ids(live, reports);
            let ring = park_all(e1.sleep, latest, live, reports);
            let (rtf, ef, stf, actions) = run_steps(rt, e, st, event, reports);
            &&& actions == live.map_values(|id: u64| RunActionView::Poll(id)).push(
                RunActionView::Sleep(finished),
            )
            &&& ef.tasks == e1.tasks.remove_keys(finished.to_set())
            &&& ef.run_queue == ring_drain(ring, latest).0
            &&& ef.sleep == ring_drain(ring, latest).1
            &&& ef.exe_id == e.exe_id
            &&& ef.next_task_id == e.next_task_id
            &&& !ef.run_queue_in_use
            &&& rtf.wall_clock == latest
            &&& rtf.exe_registered == rt.exe_registered
            &&& stf == initial_run_loop()
        }),
    decreases reports.len(),
{
    let (rt1, e1, f1) = take_event_spec(rt, e, st, event);
    let latest = rt1.wall_clock;
    let q = e1.run_queue;
    lemma_first_live_is_first_of_live_ids(q, e1.tasks, 0);
    assert(q.skip(0) =~= q);
    let live = live_ids(q, e1.tasks);
    match first_live(q, e1.tasks, 0) {
        None => {
            assert(live =~= Seq::<u64>::empty());
            assert(ready_ids(live, reports) =~= Seq::<u64>::empty());
            assert(f1 + Seq::<u64>::empty() =~= f1);
            assert(live.map_values(|id: u64| RunActionView::Poll(id)) =~= Seq::<RunActionView>::empty());
            assert(Seq::<u64>::empty() + ring_drain(e1.sleep, latest).0 =~= ring_drain(e1.sleep, latest).0);
        },
        Some(k) => {
            let id = q[k];
            let rest = live_ids(q.skip(k + 1), e1.tasks);
            assert(live.drop_first() =~= rest);
            let (rt2, e2) = begin_poll_spec(rt1, pop_runnable_spec(e1).1, id);
            let st2 = RunLoopView { finished: f1, polling: Some(id) };
            let r = reports[0];
            let e3 = match r.parks_until {
                Some(u) => sleep_poll_spec(rt2, e2, u, id).1,
                None => e2,
            };
            assert(reports.drop_first().len() == rest.len());
            law_run_round(rt2, e3, st2, RunEvent::Polled(r.outcome), reports.drop_first());
            let (rt4, e4, f4) = take_event_spec(rt2, e3, st2, RunEvent::Polled(r.outcome));
            assert(e4.run_queue == q.skip(k + 1));
            assert(e4.tasks == e1.tasks);
            let r0: Seq<u64> = if r.outcome == PollState::Ready {
                seq![id]
            } else {
                Seq::empty()
            };
            assert(f4 == f1 + r0);
            assert(ready_ids(live, reports) == r0 + ready_ids(rest, reports.drop_first()));
            assert(f4 + ready_ids(rest, reports.drop_first()) =~= f1 + ready_ids(live, reports));
            assert(park_all(e1.sleep, latest, live, reports) == park_all(
                e3.sleep,
                latest,
                rest,
                reports.drop_first(),
            ));
            let fin = f1 + ready_ids(live, reports);
            let more = rest.map_values(|id: u64| RunActionView::Poll(id)).push(
                RunActionView::Sleep(fin),
            );
            assert(seq![RunActionView::Poll(id)] + more =~= live.map_values(
                |id: u64| RunActionView::Poll(id),
            ).push(RunActionView::Sleep(fin)));
        },
    }
}

/// The live ids are the ids of the run queue that name a task.
proof fn lemma_live_ids_contains(q: Seq<u64>, tasks: Map<u64, TaskView>, x: u64)
    ensures
        live_ids(q, tasks).contains(x) <==> q.contains(x) && tasks.contains_key(x),
    decreases q.len(),
{
    if q.len() > 0 {
        lemma_live_ids_contains(q.drop_first(), tasks, x);
        let l = live_ids(q, tasks);
        let l1 = live_ids(q.drop_first(), tasks);
        if q.drop_first().contains(x) {
            let y = choose|y: int| 0 <= y < q.drop_first().len() && q.drop_first()[y] == x;
            assert(q[y + 1] == x);
        }
        if q.contains(x) && q[0] != x {
            let y = choose|y: int| 0 <= y < q.len() && q[y] == x;
            assert(q.drop_first()[y - 1] == x);
        }
        if tasks.contains_key(q[0]) {
            assert(l == seq![q[0]] + l1);
            if l1.contains(x) {
                let y = choose|y: int| 0 <= y < l1.len() && l1[y] == x;
                assert(l[y + 1] == x);
            }
            if l.contains(x) && x != q[0] {
                let y = choose|y: int| 0 <= y < l.len() && l[y] == x;
                assert(l1[y - 1] == x);
            }
            if x == q[0] {
                assert(l[0] == x);
            }
        }
    }
}

/// A task whose poll is reported ready is one of the ids polled, with a
/// ready report.
proof fn lemma_ready_ids_contains(ids: Seq<u64>, reports: Seq<PollReport>, x: u64)
    ensures
        ready_ids(ids, reports).contains(x) ==> exists|y: int|
            0 <= y < ids.len() && y < reports.len() && ids[y] == x && reports[y].outcome
                == PollState::Ready,
    decreases ids.len(),
{
    if ids.len() > 0 && reports.len() > 0 {
        let r0: Seq<u64> = if reports[0].outcome == PollState::Ready {
            seq![ids[0]]
        } else {
            Seq::empty()
        };
        let rest = ready_ids(ids.drop_first(), reports.drop_first());
        lemma_ready_ids_contains(ids.drop_first(), reports.drop_first(), x);
        if ready_ids(ids, reports).contains(x) {
            let y = choose|y: int| 0 <= y < (r0 + rest).len() && (r0 + rest)[y] == x;
            if y < r0.len() {
                assert(ids[0] == x);
            } else {
                assert(rest[y - r0.len()] == x);
                let z = choose|z: int|
                    0 <= z < ids.drop_first().len() && z < reports.drop_first().len()
                        && ids.drop_first()[z] == x && reports.drop_first()[z].outcome
                        == PollState::Ready;
                assert(ids[z + 1] == x && reports[z + 1].outcome == PollState::Ready);
            }
        }
    }
}

/// Parking a task other than `th` keeps `th` out of every slot.
proof fn lemma_push_keeps_absent(v: SleepRingView, latest: u64, offset: u64, t: u64, th: u64)
    requires
        forall|i: int| 0 <= i < v.slots.len() ==> !(#[trigger] v.slots[i]).contains(th),
        t != th,
        v.slots.len() > 0,
    ensures
        forall|i: int|
            0 <= i < ring_push(v, latest, offset, t).slots.len() ==> !(#[trigger] ring_push(
                v,
                latest,
                offset,
                t,
            ).slots[i]).contains(th),
        ring_push(v, latest, offset, t).slots.len() == v.slots.len(),
        ring_push(v, latest, offset, t).exe_clock == v.exe_clock,
{
    let w = ring_push(v, latest, offset, t);
    assert forall|i: int| 0 <= i < w.slots.len() implies !(#[trigger] w.slots[i]).contains(th) by {
        assert(!v.slots[i].contains(th));
        if w.slots[i].contains(th) {
            let x = choose|x: int| 0 <= x < w.slots[i].len() && w.slots[i][x] == th;
            if w.slots[i] != v.slots[i] && x < v.slots[i].len() {
                assert(v.slots[i][x] == th);
            }
            if w.slots[i] == v.slots[i] {
                assert(v.slots[i][x] == th);
            }
        }
    }
}

/// Parking the sleeps of tasks other than `th` leaves `th` parked.
proof fn lemma_park_all_keeps_parked(
    ring: SleepRingView,
    latest: u64,
    ids: Seq<u64>,
    reports: Seq<PollReport>,
    th: u64,
    due: int,
)
    requires
        parked_at(ring, th, due),
        !ids.contains(th),
    ensures
        parked_at(park_all(ring, latest, ids, reports), th, due),
    decreases ids.len(),
{
    if ids.len() > 0 && reports.len() > 0 {
        assert(ids[0] != th) by {
            assert(ids.contains(ids[0]));
        }
        if let Some(u) = reports[0].parks_until {
            if u > latest {
                lemma_push_keeps_parked(ring, latest, (u - latest) as u64, ids[0], th, due);
            }
        }
        assert(!ids.drop_first().contains(th)) by {
            if ids.drop_first().contains(th) {
                let y = choose|y: int| 0 <= y < ids.drop_first().len() && ids.drop_first()[y] == th;
                assert(ids[y + 1] == th);
            }
        }
        let next = match reports[0].parks_until {
            Some(u) => if u > latest {
                ring_push(ring, latest, (u - latest) as u64, ids[0])
            } else {
                ring
            },
            None => ring,
        };
        lemma_park_all_keeps_parked(next, latest, ids.drop_first(), reports.drop_first(), th, due);
    }
}

/// Where `th` is polled once in the round and its poll parks it until `u`,
/// it ends up parked for `u`.
proof fn lemma_park_all_parks(
    ring: SleepRingView,
    latest: u64,
    ids: Seq<u64>,
    reports: Seq<PollReport>,
    th: u64,
    x: int,
    u: u64,
)
    requires
        ring.slots.len() == SLEEP_RING_SLOTS,
        ring.exe_clock <= latest < u,
        forall|i: int| 0 <= i < ring.slots.len() ==> !(#[trigger] ring.slots[i]).contains(th),
        ids.len() == reports.len(),
        0 <= x < ids.len(),
        ids[x] == th,
        forall|y: int| 0 <= y < ids.len() && y != x ==> ids[y] != th,
        reports[x].parks_until == Some(u),
    ensures
        parked_at(park_all(ring, latest, ids, reports), th, u as int),
    decreases ids.len(),
{
    let next = match reports[0].parks_until {
        Some(w) => if w > latest {
            ring_push(ring, latest, (w - latest) as u64, ids[0])
        } else {
            ring
        },
        None => ring,
    };
    if x == 0 {
        lemma_push_parks_at(ring, latest, (u - latest) as u64, th);
        assert(!ids.drop_first().contains(th)) by {
            if ids.drop_first().contains(th) {
                let y = choose|y: int| 0 <= y < ids.drop_first().len() && ids.drop_first()[y] == th;
                assert(ids[y + 1] == th);
            }
        }
        lemma_park_all_keeps_parked(next, latest, ids.drop_first(), reports.drop_first(), th, u as int);
    } else {
        if let Some(w) = reports[0].parks_until {
            if w > latest {
                lemma_push_keeps_absent(ring, latest, (w - latest) as u64, ids[0], th);
            }
        }
        lemma_park_all_parks(next, latest, ids.drop_first(), reports.drop_first(), th, x - 1, u);
    }
}

/// Parking sleeps keeps the ring's size and clock.
proof fn lemma_park_all_ring(ring: SleepRingView, latest: u64, ids: Seq<u64>, reports: Seq<PollReport>)
    requires
        ring.slots.len() > 0,
    ensures
        park_all(ring, latest, ids, reports).slots.len() == ring.slots.len(),
        park_all(ring, latest, ids, reports).exe_clock == ring.exe_clock,
    decreases ids.len(),
{
    if ids.len() > 0 && reports.len() > 0 {
        let next = match reports[0].parks_until {
            Some(w) => if w > latest {
                ring_push(ring, latest, (w - latest) as u64, ids[0])
            } else {
                ring
            },
            None => ring,
        };
        lemma_park_all_ring(next, latest, ids.drop_first(), reports.drop_first());
    }
}

/// The round in which a task sleeps: a task polled once in a round of the
/// registered executor, whose poll parks it on a sleep due at tick `until`
/// (later than the round's clock, and less than a full turn of the ring
/// ahead of the ring's clock) and is pending, is not woken in that round:
/// it ends the round parked for `until`, off the run queue, and still a task
/// of the executor.
pub proof fn law_round_parks_sleeper(
    rt: RuntimeView,
    e: ExecutorView,
    event: RunEvent,
    reports: Seq<PollReport>,
    th: u64,
    x: int,
    until: u64,
)
    requires
        !(event is Polled),
        rt.exe_registered == Some(e.exe_id),
        !e.run_queue_in_use,
        e.sleep.slots.len() == SLEEP_RING_SLOTS,
        forall|i: int| 0 <= i < e.sleep.slots.len() ==> !(#[trigger] e.sleep.slots[i]).contains(th),
        ({
            let (rt1, e1, f1) = take_event_spec(rt, e, initial_run_loop(), event);
            let live = live_ids(e1.run_queue, e1.tasks);
            &&& reports.len() == live.len()
            &&& 0 <= x < live.len()
            &&& live[x] == th
            &&& forall|y: int| 0 <= y < live.len() && y != x ==> live[y] != th
            &&& reports[x] == (PollReport {
                outcome: PollState::Pending,
                parks_until: Some(until),
            })
            &&& e.sleep.exe_clock <= rt1.wall_clock < until < e.sleep.exe_clock + SLEEP_RING_SLOTS
        }),
    ensures
        ({
            let (rtf, ef, stf, actions) = run_steps(rt, e, initial_run_loop(), event, reports);
            &&& parked_at(ef.sleep, th, until as int)
            &&& !ef.run_queue.contains(th)
            &&& ef.tasks.contains_key(th)
            &&& ef.sleep.exe_clock == rtf.wall_clock
        }),
{
    let st = initial_run_loop();
    let (rt1, e1, f1) = take_event_spec(rt, e, st, event);
    let latest = rt1.wall_clock;
    let live = live_ids(e1.run_queue, e1.tasks);
    law_run_round(rt, e, st, event, reports);
    lemma_park_all_parks(e1.sleep, latest, live, reports, th, x, until);
    let ring = park_all(e1.sleep, latest, live, reports);
    lemma_park_all_ring(e1.sleep, latest, live, reports);
    lemma_drain_before_deadline(ring, latest, th, until as int);
    lemma_drain_clock(ring, latest);
    assert(f1 =~= Seq::<u64>::empty());
    assert(f1 + ready_ids(live, reports) =~= ready_ids(live, reports));
    lemma_ready_ids_contains(live, reports, th);
    assert(live.contains(th));
    lemma_live_ids_contains(e1.run_queue, e1.tasks, th);
}

/// A later round short of the sleeper's tick: a task parked for tick
/// `until` and off the run queue is not polled in a round whose clock is
/// short of `until` (with `until` less than a full turn of the ring ahead of
/// the ring's clock), and ends it still parked, off the run queue, and a task
/// of the executor.
pub proof fn law_round_before_deadline(
    rt: RuntimeView,
    e: ExecutorView,
    event: RunEvent,
    reports: Seq<PollReport>,
    th: u64,
    until: u64,
)
    requires
        !(event is Polled),
        rt.exe_registered == Some(e.exe_id),
        !e.run_queue_in_use,
        parked_at(e.sleep, th, until as int),
        !e.run_queue.contains(th),
        e.tasks.contains_key(th),
        ({
            let (rt1, e1, f1) = take_event_spec(rt, e, initial_run_loop(), event);
            &&& reports.len() == live_ids(e1.run_queue, e1.tasks).len()
            &&& e.sleep.exe_clock <= rt1.wall_clock < until < e.sleep.exe_clock + SLEEP_RING_SLOTS
        }),
    ensures
        ({
            let (rtf, ef, stf, actions) = run_steps(rt, e, initial_run_loop(), event, reports);
            &&& !actions.contains(RunActionView::Poll(th))
            &&& parked_at(ef.sleep, th, until as int)
            &&& !ef.run_queue.contains(th)
            &&& ef.tasks.contains_key(th)
            &&& ef.sleep.exe_clock == rtf.wall_clock
        }),
{
    let st = initial_run_loop();
    let (rt1, e1, f1) = take_event_spec(rt, e, st, event);
    let latest = rt1.wall_clock;
    let live = live_ids(e1.run_queue, e1.tasks);
    law_run_round(rt, e, st, event, reports);
    lemma_live_ids_contains(e1.run_queue, e1.tasks, th);
    lemma_park_all_keeps_parked(e1.sleep, latest, live, reports, th, until as int);
    let ring = park_all(e1.sleep, latest, live, reports);
    lemma_park_all_ring(e1.sleep, latest, live, reports);
    lemma_drain_before_deadline(ring, latest, th, until as int);
    lemma_drain_clock(ring, latest);
    assert(f1 + ready_ids(live, reports) =~= ready_ids(live, reports));
    lemma_ready_ids_contains(live, reports, th);
    let fin = f1 + ready_ids(live, reports);
    let (rtf, ef, stf, actions) = run_steps(rt, e, st, event, reports);
    let polls = live.map_values(|id: u64| RunActionView::Poll(id));
    assert(!actions.contains(RunActionView::Poll(th))) by {
        if actions.contains(RunActionView::Poll(th)) {
            let y = choose|y: int| 0 <= y < actions.len() && actions[y] == RunActionView::Poll(th);
            if y < polls.len() {
                assert(live[y] == th);
            }
        }
    }
}

/// The round in which the wall clock reaches the sleeper's tick: a task
/// parked for tick `until` and off the run queue is not polled in that
/// round, is woken at its end (it is on the run queue), and is still a task
/// of the executor.
pub proof fn law_round_wakes_at_deadline(
    rt: RuntimeView,
    e: ExecutorView,
    event: RunEvent,
    reports: Seq<PollReport>,
    th: u64,
    until: u64,
)
    requires
        !(event is Polled),
        rt.exe_registered == Some(e.exe_id),
        !e.run_queue_in_use,
        parked_at(e.sleep, th, until as int),
        !e.run_queue.contains(th),
        e.tasks.contains_key(th),
        ({
            let (rt1, e1, f1) = take_event_spec(rt, e, initial_run_loop(), event);
            &&& reports.len() == live_ids(e1.run_queue, e1.tasks).len()
            &&& until <= rt1.wall_clock
        }),
    ensures
        ({
            let (rtf, ef, stf, actions) = run_steps(rt, e, initial_run_loop(), event, reports);
            &&& !actions.contains(RunActionView::Poll(th))
            &&& ef.run_queue.contains(th)
            &&& ef.tasks.contains_key(th)
        }),
{
    let st = initial_run_loop();
    let (rt1, e1, f1) = take_event_spec(rt, e, st, event);
    let latest = rt1.wall_clock;
    let live = live_ids(e1.run_queue, e1.tasks);
    law_run_round(rt, e, st, event, reports);
    lemma_live_ids_contains(e1.run_queue, e1.tasks, th);
    lemma_park_all_keeps_parked(e1.sleep, latest, live, reports, th, until as int);
    let ring = park_all(e1.sleep, latest, live, reports);
    lemma_drain_after_deadline(ring, latest, th, until as int);
    assert(f1 + ready_ids(live, reports) =~= ready_ids(live, reports));
    lemma_ready_ids_contains(live, reports, th);
    let (rtf, ef, stf, actions) = run_steps(rt, e, st, event, reports);
    let polls = live.map_values(|id: u64| RunActionView::Poll(id));
    assert(!actions.contains(RunActionView::Poll(th))) by {
        if actions.contains(RunActionView::Poll(th)) {
            let y = choose|y: int| 0 <= y < actions.len() && actions[y] == RunActionView::Poll(th);
            if y < polls.len() {
                assert(live[y] == th);
            }
        }
    }
}

/// The round after the wake: a task on the run queue at the start of a
/// round is polled in that round.
pub proof fn law_woken_task_is_polled_next_round(
    rt: RuntimeView,
    e: ExecutorView,
    event: RunEvent,
    reports: Seq<PollReport>,
    th: u64,
)
    requires
        !(event is Polled),
        rt.exe_registered == Some(e.exe_id),
        !e.run_queue_in_use,
        e.run_queue.contains(th),
        e.tasks.contains_key(th),
        ({
            let (rt1, e1, f1) = take_event_spec(rt, e, initial_run_loop(), event);
            reports.len() == live_ids(e1.run_queue, e1.tasks).len()
        }),
    ensures
        run_steps(rt, e, initial_run_loop(), event, reports).3.contains(RunActionView::Poll(th)),
{
    let st = initial_run_loop();
    let (rt1, e1, f1) = take_event_spec(rt, e, st, event);
    let live = live_ids(e1.run_queue, e1.tasks);
    law_run_round(rt, e, st, event, reports);
    lemma_live_ids_contains(e1.run_queue, e1.tasks, th);
    let y = choose|y: int| 0 <= y < live.len() && live[y] == th;
    let actions = run_steps(rt, e, st, event, reports).3;
    assert(actions[y] == RunActionView::Poll(th));
}

/// A spawn is refused, and changes nothing, on an executor that is not the
/// one registered on the thread (whether none or another one is); on the
/// registered executor it succeeds.
pub proof fn law_spawn_only_on_registered_executor(rt: RuntimeView, e: ExecutorView)
    ensures
        rt.exe_registered != Some(e.exe_id) ==> spawn_spec(rt, e) == (Err::<u64, ()>(()), e),
        rt.exe_registered == Some(e.exe_id) ==> spawn_spec(rt, e).0 is Ok,
{
}

/// A spawned task joins the back of the run queue, whatever the queue
/// holds: the queue is the old one followed by the new id, so tasks are
/// polled in the order they were spawned. Two spawns in a row queue their
/// ids in call order.
pub proof fn law_spawn_queues_at_back(rt: RuntimeView, e: ExecutorView)
    requires
        rt.exe_registered == Some(e.exe_id),
    ensures
        ({
            let (r1, e1) = spawn_spec(rt, e);
            let (r2, e2) = spawn_spec(rt, e1);
            &&& r1 == Ok::<u64, ()>(e.next_task_id)
            &&& e1.run_queue == e.run_queue.push(e.next_task_id)
            &&& e1.run_queue.len() == e.run_queue.len() + 1
            &&& e1.run_queue.subrange(0, e.run_queue.len() as int) == e.run_queue
            &&& e1.run_queue.last() == e.next_task_id
            &&& r2 == Ok::<u64, ()>(e1.next_task_id)
            &&& e2.run_queue == e.run_queue.push(e.next_task_id).push(e1.next_task_id)
        }),
{
    let (r1, e1) = spawn_spec(rt, e);
    assert(e1.run_queue.subrange(0, e.run_queue.len() as int) =~= e.run_queue);
}

/// A spawned task is named `Task_` followed by the digits of its own id
/// (for every id): the digits denote the id, and the thread reports that
/// name while the task is polled.
pub proof fn law_spawned_task_is_named_by_its_id(rt: RuntimeView, e: ExecutorView, rt2: RuntimeView)
    requires
        rt.exe_registered == Some(e.exe_id),
    ensures
        ({
            let id = e.next_task_id;
            let e1 = spawn_spec(rt, e).1;
            let name = e1.tasks[id].name;
            &&& e1.tasks.contains_key(id)
            &&& name.take(5) == seq!['T', 'a', 's', 'k', '_']
            &&& forall|i: int| 5 <= i < name.len() ==> is_digit(#[trigger] name[i])
            &&& decimal_value(name.skip(5)) == id
            &&& begin_poll_spec(rt2, e1, id).0.task_name_running == name
            &&& begin_poll_spec(rt2, e1, id).0.task_id_running == id
        }),
{
    law_default_name_spells_id(e.next_task_id, e.next_task_id);
}

/// A sleep is due one tick per 50 microseconds of its duration (cut to
/// 64 bits) after the wall clock, counted in whole ticks and never less
/// than one: for a duration of at least 50 microseconds the deadline is
/// the clock plus `w` with `w * 50 <= micros < (w + 1) * 50`; for a
/// shorter one it is the next tick.
pub proof fn law_sleep_deadline_counts_fifty_micro_ticks(clock: u64, micros: u128)
    ensures
        ({
            let u = micros as u64;
            let w = sleep_deadline(clock, micros) - clock;
            &&& u >= 50 ==> w * 50 <= u < (w + 1) * 50
            &&& u < 50 ==> w == 1
            &&& micros <= u64::MAX ==> u == micros
        }),
{
}

} // verus!
