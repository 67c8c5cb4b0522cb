use crate::my_wake::LocalWake;
use crate::sleep::TaskSleep;
use crate::sleep_ring::{
    empty_ring,
    lemma_pop_unparks,
    ring_drain,
    ring_push,
    total_parked,
    ExeSubmodSleep,
    SleepRingView,
};
use crate::task::{
    decimal_value,
    default_task_name,
    law_default_name_spells_id,
    Task,
    TaskState,
    TaskView,
};
use crate::task_handle::TaskHandle;
use std::collections::HashMap;
use std::collections::VecDeque;
use std::rc::Rc;
use vstd::prelude::*;

verus! {

broadcast use {
    vstd::std_specs::hash::group_hash_axioms,
    vstd::std_specs::vecdeque::group_vec_dequeue_axioms,
    vstd::std_specs::vec::group_vec_axioms,
};

/// Outcome of polling a task once.
#[derive(PartialEq, Eq, Structural, Clone, Copy, Debug)]
pub enum PollState {
    Ready,
    Pending,
}

/// What a thread knows of the scheduler: the generator of executor ids, the
/// executor registered on the thread (whose run queue and sleep module the
/// thread reaches), the wall clock in ticks, and the task being polled.
pub struct RuntimeView {
    pub exe_id_generator: u32,
    pub exe_registered: Option<u32>,
    pub wall_clock: u64,
    pub task_id_running: u64,
    pub task_name_running: Seq<char>,
}

/// The scheduler's state of one thread.
pub struct ThreadRuntime {
    exe_id_generator: u32,
    exe_registered: Option<u32>,
    wall_clock: u64,
    task_id_running: u64,
    task_name_running: String,
}

impl View for ThreadRuntime {
    type V = RuntimeView;

    closed spec fn view(&self) -> RuntimeView {
        RuntimeView {
            exe_id_generator: self.exe_id_generator,
            exe_registered: self.exe_registered,
            wall_clock: self.wall_clock,
            task_id_running: self.task_id_running,
            task_name_running: self.task_name_running@,
        }
    }
}

/// The state of a thread before anything has run on it.
pub open spec fn initial_runtime() -> RuntimeView {
    RuntimeView {
        exe_id_generator: 1,
        exe_registered: None,
        wall_clock: 0,
        task_id_running: 0,
        task_name_running: Seq::empty(),
    }
}

impl ThreadRuntime {
    /// The state of a thread before anything has run on it.
    pub fn new() -> (rt: Self)
        ensures
            rt@ == initial_runtime(),
    {
        ThreadRuntime {
            exe_id_generator: 1,
            exe_registered: None,
            wall_clock: 0,
            task_id_running: 0,
            task_name_running: String::new(),
        }
    }
}

/// Registering executor `exe_id` on a thread: refused while one is
/// registered.
pub open spec fn register_spec(rt: RuntimeView, exe_id: u32) -> (Result<(), ()>, RuntimeView) {
    match rt.exe_registered {
        Some(_) => (Err(()), rt),
        None => (Ok(()), RuntimeView { exe_registered: Some(exe_id), ..rt }),
    }
}

/// Unregistering executor `exe_id` from a thread: refused unless it is the
/// one registered.
pub open spec fn unregister_spec(rt: RuntimeView, exe_id: u32) -> (Result<(), ()>, RuntimeView) {
    if rt.exe_registered == Some(exe_id) {
        (Ok(()), RuntimeView { exe_registered: None, ..rt })
    } else {
        (Err(()), rt)
    }
}

/// The current tick of the thread's wall clock.
pub fn thread_runtime_wall_clock(rt: &ThreadRuntime) -> (c: u64)
    ensures
        c == rt@.wall_clock,
{
    rt.wall_clock
}

/// Advances the thread's wall clock by one tick.
pub fn thread_runtime_wall_clock_inc(rt: &mut ThreadRuntime)
    requires
        old(rt)@.wall_clock < u64::MAX,
    ensures
        final(rt)@ == (RuntimeView { wall_clock: (old(rt)@.wall_clock + 1) as u64, ..old(rt)@ }),
{
    rt.wall_clock = rt.wall_clock + 1;
}

/// The executor whose sleep module the thread reaches, if any.
pub fn thread_runtime_sleep_mod(rt: &ThreadRuntime) -> (r: Option<u32>)
    ensures
        r == rt@.exe_registered,
{
    rt.exe_registered
}

/// Hands out the next executor id.
pub fn thread_exe_id_gen(rt: &mut ThreadRuntime) -> (id: u32)
    ensures
        id == old(rt)@.exe_id_generator,
        final(rt)@ == (RuntimeView {
            exe_id_generator: old(rt)@.exe_id_generator.wrapping_add(1),
            ..old(rt)@
        }),
{
    let id = rt.exe_id_generator;
    rt.exe_id_generator = id.wrapping_add(1);
    id
}

/// Registers `exe` on the thread, unless an executor is registered already.
pub fn thread_runtime_init(rt: &mut ThreadRuntime, exe: &Executor) -> (r: Result<(), ()>)
    ensures
        (r, final(rt)@) == register_spec(old(rt)@, exe@.exe_id),
{
    match rt.exe_registered {
        Some(_) => Err(()),
        None => {
            rt.exe_registered = Some(exe.exe_id);
            Ok(())
        },
    }
}

/// The executor registered on the thread, if any.
pub fn thread_runtime_exe_id(rt: &ThreadRuntime) -> (r: Option<u32>)
    ensures
        r == rt@.exe_registered,
{
    rt.exe_registered
}

/// Whether `exe` is the executor registered on the thread.
pub fn thread_runtime_check(rt: &ThreadRuntime, exe: &Executor) -> (b: bool)
    ensures
        b == (rt@.exe_registered == Some(exe@.exe_id)),
{
    match rt.exe_registered {
        Some(running_id) => running_id == exe.exe_id,
        None => false,
    }
}

/// Unregisters `exe` from the thread, if it is the executor registered.
pub fn thread_runtime_exit(rt: &mut ThreadRuntime, exe: &Executor) -> (r: Result<(), ()>)
    ensures
        (r, final(rt)@) == unregister_spec(old(rt)@, exe@.exe_id),
{
    match rt.exe_registered {
        Some(running_id) => {
            if running_id == exe.exe_id {
                rt.exe_registered = None;
                Ok(())
            } else {
                Err(())
            }
        },
        None => Err(()),
    }
}

/// What an executor is: its id, the id its next task gets, its tasks by id,
/// its run queue of task ids, its ring of sleeping tasks, and whether its run
/// queue is held by the task being polled.
pub struct ExecutorView {
    pub exe_id: u32,
    pub next_task_id: u64,
    pub tasks: Map<u64, TaskView>,
    pub run_queue: Seq<u64>,
    pub sleep: SleepRingView,
    pub run_queue_in_use: bool,
}

/// Putting task `id` back on the run queue of `e`, through thread `rt`:
/// refused unless `e` is the executor registered on the thread and its run
/// queue is free.
pub open spec fn resume_spec(rt: RuntimeView, e: ExecutorView, id: u64) -> (
    Result<(), ()>,
    ExecutorView,
) {
    if rt.exe_registered == Some(e.exe_id) && !e.run_queue_in_use {
        (Ok(()), ExecutorView { run_queue: e.run_queue.push(id), ..e })
    } else {
        (Err(()), e)
    }
}

/// Spawning a task on `e`: refused unless `e` is the executor registered on
/// the thread; otherwise the task gets the next id, is recorded under it,
/// and joins the back of the run queue.
pub open spec fn spawn_spec(rt: RuntimeView, e: ExecutorView) -> (Result<u64, ()>, ExecutorView) {
    if rt.exe_registered == Some(e.exe_id) {
        let id = e.next_task_id;
        (
            Ok(id),
            ExecutorView {
                next_task_id: id.wrapping_add(1),
                tasks: e.tasks.insert(
                    id,
                    TaskView { id, name: default_task_name(id), state: TaskState::Init },
                ),
                run_queue: e.run_queue.push(id),
                ..e
            },
        )
    } else {
        (Err(()), e)
    }
}

/// Position of the first id in `q`, from `from` on, that names a task of
/// `tasks`.
pub open spec fn first_live(q: Seq<u64>, tasks: Map<u64, TaskView>, from: int) -> Option<int>
    decreases q.len() - from,
{
    if from < 0 || from >= q.len() {
        None
    } else if tasks.contains_key(q[from]) {
        Some(from)
    } else {
        first_live(q, tasks, from + 1)
    }
}

/// What `first_live` finds is a position in range holding the id of a task.
pub proof fn lemma_first_live(q: Seq<u64>, tasks: Map<u64, TaskView>, from: int)
    ensures
        first_live(q, tasks, from) matches Some(k) ==> from <= k < q.len() && tasks.contains_key(
            q[k],
        ),
    decreases q.len() - from,
{
    if 0 <= from < q.len() && !tasks.contains_key(q[from]) {
        lemma_first_live(q, tasks, from + 1);
    }
}

/// Taking the next task to poll off the run queue: ids of tasks that no
/// longer exist are dropped on the way.
pub open spec fn pop_runnable_spec(e: ExecutorView) -> (Option<u64>, ExecutorView) {
    match first_live(e.run_queue, e.tasks, 0) {
        Some(k) => (Some(e.run_queue[k]), ExecutorView { run_queue: e.run_queue.skip(k + 1), ..e }),
        None => (None, ExecutorView { run_queue: Seq::empty(), ..e }),
    }
}

/// Waking the sleeping tasks of `e` at the thread's wall clock: where `e` is
/// the executor registered on the thread, every task that has fallen due
/// leaves the ring, in order, and is put back on the run queue (unless the
/// run queue is held).
pub open spec fn sleep_mod_spec(rt: RuntimeView, e: ExecutorView) -> ExecutorView {
    if rt.exe_registered == Some(e.exe_id) {
        let (woken, ring) = ring_drain(e.sleep, rt.wall_clock);
        ExecutorView {
            sleep: ring,
            run_queue: if e.run_queue_in_use {
                e.run_queue
            } else {
                e.run_queue + woken
            },
            ..e
        }
    } else {
        e
    }
}

/// Starting to poll task `id` of `e`: the thread records it as the running
/// task, and the run queue is held until the poll ends.
pub open spec fn begin_poll_spec(rt: RuntimeView, e: ExecutorView, id: u64) -> (
    RuntimeView,
    ExecutorView,
) {
    (
        RuntimeView { task_id_running: id, task_name_running: e.tasks[id].name, ..rt },
        ExecutorView { run_queue_in_use: true, ..e },
    )
}

/// Ending the poll of task `id` with `outcome`: a finished task is noted in
/// `finished`, the thread forgets the running task, and the run queue is
/// free again.
pub open spec fn end_poll_spec(
    rt: RuntimeView,
    e: ExecutorView,
    id: u64,
    outcome: PollState,
    finished: Seq<u64>,
) -> (RuntimeView, ExecutorView, Seq<u64>) {
    (
        RuntimeView { task_id_running: 0, task_name_running: Seq::empty(), ..rt },
        ExecutorView { run_queue_in_use: false, ..e },
        if outcome == PollState::Ready {
            finished.push(id)
        } else {
            finished
        },
    )
}

/// Dropping the tasks that finished during a round.
pub open spec fn remove_finished_spec(e: ExecutorView, finished: Seq<u64>) -> ExecutorView {
    ExecutorView { tasks: e.tasks.remove_keys(finished.to_set()), ..e }
}

/// The tick at which a task that sleeps for `micros` microseconds at wall
/// clock `clock` is due: one tick per 50 microseconds (of the duration cut
/// to 64 bits), and at least one tick.
pub open spec fn sleep_deadline(clock: u64, micros: u128) -> int {
    let wait = (micros as u64) / 50;
    clock + if wait == 0 {
        1
    } else {
        wait
    }
}

/// A single-threaded executor of tasks.
pub struct Executor {
    exe_id: u32,
    task_id_allocator: u64,
    task_id_map: HashMap<u64, Task>,
    task_run_queue: VecDeque<u64>,
    task_sleep: ExeSubmodSleep,
    run_queue_in_use: bool,
}

impl View for Executor {
    type V = ExecutorView;

    closed spec fn view(&self) -> ExecutorView {
        ExecutorView {
            exe_id: self.exe_id,
            next_task_id: self.task_id_allocator,
            tasks: self.task_id_map@.map_values(|t: Task| t@),
            run_queue: self.task_run_queue@,
            sleep: self.task_sleep@,
            run_queue_in_use: self.run_queue_in_use,
        }
    }
}

impl Executor {
    /// The sleep ring has its fixed number of slots and every task is
    /// recorded under its own id.
    pub open spec fn wf(&self) -> bool {
        &&& self@.sleep.slots.len() == crate::sleep_ring::SLEEP_RING_SLOTS
        &&& forall|k: u64| #[trigger] self@.tasks.contains_key(k) ==> self@.tasks[k].id == k
    }

    /// A new executor with the thread's next executor id, no task, and an
    /// empty sleep ring.
    pub fn new(rt: &mut ThreadRuntime) -> (e: Self)
        ensures
            e.wf(),
            e@ == (ExecutorView {
                exe_id: old(rt)@.exe_id_generator,
                next_task_id: 1,
                tasks: Map::empty(),
                run_queue: Seq::empty(),
                sleep: empty_ring(),
                run_queue_in_use: false,
            }),
            final(rt)@ == (RuntimeView {
                exe_id_generator: old(rt)@.exe_id_generator.wrapping_add(1),
                ..old(rt)@
            }),
    {
        let e = Executor {
            exe_id: thread_exe_id_gen(rt),
            task_id_allocator: 1,
            task_id_map: HashMap::new(),
            task_run_queue: VecDeque::new(),
            task_sleep: ExeSubmodSleep::new(),
            run_queue_in_use: false,
        };
        assert(e@.tasks =~= Map::empty());
        e
    }

    /// The executor's id.
    pub fn exe_id(&self) -> (id: u32)
        ensures
            id == self@.exe_id,
    {
        self.exe_id
    }

    /// The clock up to which the executor's sleep ring has been drained.
    pub fn sleep_exe_clock(&self) -> (c: u64)
        ensures
            c == self@.sleep.exe_clock,
    {
        self.task_sleep.exe_clock()
    }

    /// Registers the executor on the thread.
    pub fn register(&self, rt: &mut ThreadRuntime) -> (r: Result<(), ()>)
        ensures
            (r, final(rt)@) == register_spec(old(rt)@, self@.exe_id),
    {
        thread_runtime_init(rt, self)
    }

    /// Unregisters the executor from the thread.
    pub fn unregister(&self, rt: &mut ThreadRuntime) -> (r: Result<(), ()>)
        ensures
            (r, final(rt)@) == unregister_spec(old(rt)@, self@.exe_id),
    {
        thread_runtime_exit(rt, self)
    }

    /// Puts task `id` back on the run queue of `exe`, the executor whose run
    /// queue the thread reaches.
    pub fn resume_task(rt: &ThreadRuntime, exe: &mut Executor, id: u64) -> (r: Result<(), ()>)
        requires
            old(exe).wf(),
        ensures
            final(exe).wf(),
            (r, final(exe)@) == resume_spec(rt@, old(exe)@, id),
    {
        if thread_runtime_check(rt, exe) && !exe.run_queue_in_use {
            exe.task_run_queue.push_back(id);
            Ok(())
        } else {
            Err(())
        }
    }

    /// Spawns a task on the executor and gives its id, under which the
    /// caller keeps the task's future.
    pub fn spawn(&mut self, rt: &ThreadRuntime) -> (r: Result<u64, ()>)
        requires
            old(self).wf(),
            !old(self)@.run_queue_in_use,
        ensures
            final(self).wf(),
            (r, final(self)@) == spawn_spec(rt@, old(self)@),
            rt@.exe_registered != Some(old(self)@.exe_id) ==> r == Err::<u64, ()>(())
                && final(self)@ == old(self)@,
            rt@.exe_registered == Some(old(self)@.exe_id) ==> r == Ok::<u64, ()>(
                old(self)@.next_task_id,
            ),
            r matches Ok(id) ==> {
                &&& final(self)@.run_queue == old(self)@.run_queue.push(id)
                &&& final(self)@.tasks.contains_key(id)
                &&& final(self)@.tasks[id].name.take(5) == seq!['T', 'a', 's', 'k', '_']
                &&& decimal_value(final(self)@.tasks[id].name.skip(5)) == id
                &&& forall|k: u64|
                    k != id ==> #[trigger] final(self)@.tasks.contains_key(k)
                        == old(self)@.tasks.contains_key(k)
            },
    {
        proof {
            law_default_name_spells_id(old(self)@.next_task_id, old(self)@.next_task_id);
        }
        if thread_runtime_check(rt, self) {
            let new_task_id = self.task_id_allocator;
            self.task_id_allocator = new_task_id.wrapping_add(1);
            let new_task = Task::new(new_task_id);
            let ghost m0 = self.task_id_map@;
            self.task_id_map.insert(new_task_id, new_task);
            assert(self@.tasks =~= m0.map_values(|t: Task| t@).insert(new_task_id, new_task@));
            self.task_run_queue.push_back(new_task_id);
            Ok(new_task_id)
        } else {
            Err(())
        }
    }

    /// The id of the task being polled on the thread (0 between polls).
    pub fn task_id(rt: &ThreadRuntime) -> (id: u64)
        ensures
            id == rt@.task_id_running,
    {
        rt.task_id_running
    }

    /// The name of the task being polled on the thread (empty between
    /// polls).
    pub fn task_name(rt: &ThreadRuntime) -> (name: String)
        ensures
            name@ == rt@.task_name_running,
    {
        rt.task_name_running.clone()
    }

    /// A future that is ready once the wall clock has advanced by one tick
    /// per 50 microseconds of `duration_micros`, and by at least one tick.
    pub fn sleep(rt: &ThreadRuntime, duration_micros: u128) -> (s: TaskSleep)
        requires
            sleep_deadline(rt@.wall_clock, duration_micros) <= u64::MAX,
        ensures
            s@ == sleep_deadline(rt@.wall_clock, duration_micros),
            (duration_micros as u64) >= 50 ==> (s@ - rt@.wall_clock) * 50 <= (duration_micros as u64)
                < (s@ - rt@.wall_clock + 1) * 50,
            (duration_micros as u64) < 50 ==> s@ == rt@.wall_clock + 1,
    {
        let usec = duration_micros as u64;
        let mut wait_clock = usec / 50;
        if wait_clock == 0 {
            wait_clock = wait_clock + 1;
        }
        TaskSleep::new(wait_clock + thread_runtime_wall_clock(rt))
    }

    /// Wakes every task of `exe`'s sleep ring that has fallen due at the
    /// thread's wall clock, where `exe` is the executor registered on the
    /// thread.
    pub fn process_sleep_mod(rt: &ThreadRuntime, exe: &mut Executor)
        requires
            old(exe).wf(),
            rt@.exe_registered == Some(old(exe)@.exe_id) ==> old(exe)@.sleep.exe_clock
                <= rt@.wall_clock,
        ensures
            final(exe).wf(),
            final(exe)@ == sleep_mod_spec(rt@, old(exe)@),
    {
        let registered = thread_runtime_sleep_mod(rt);
        let is_mine = match registered {
            Some(id) => id == exe.exe_id,
            None => false,
        };
        if is_mine {
            let latest = thread_runtime_wall_clock(rt);
            let ghost e0 = exe@;
            let ghost woken: Seq<u64> = Seq::empty();
            loop
                invariant_except_break
                    exe.wf(),
                    rt@.exe_registered == Some(e0.exe_id),
                    latest == rt@.wall_clock,
                    exe@.sleep.exe_clock <= latest,
                    exe@ == (ExecutorView { sleep: exe@.sleep, run_queue: exe@.run_queue, ..e0 }),
                    ring_drain(e0.sleep, latest).0 == woken + ring_drain(exe@.sleep, latest).0,
                    ring_drain(e0.sleep, latest).1 == ring_drain(exe@.sleep, latest).1,
                    exe@.run_queue == if e0.run_queue_in_use {
                        e0.run_queue
                    } else {
                        e0.run_queue + woken
                    },
                ensures
                    exe.wf(),
                    exe@ == sleep_mod_spec(rt@, e0),
                decreases total_parked(exe@.sleep.slots),
            {
                let ghost before = exe@;
                proof {
                    lemma_pop_unparks(before.sleep, latest);
                }
                match exe.task_sleep.pop_front_sleep_task(latest) {
                    Some(h) => {
                        let handle = Rc::new(TaskHandle::new(h));
                        handle.wake(rt, exe);
                        proof {
                            let d = ring_drain(exe@.sleep, latest).0;
                            assert(ring_drain(before.sleep, latest).0 == seq![h] + d);
                            assert(woken + (seq![h] + d) =~= woken.push(h) + d);
                            if !e0.run_queue_in_use {
                                assert(e0.run_queue + woken.push(h) =~= (e0.run_queue + woken).push(h));
                            }
                            woken = woken.push(h);
                        }
                    },
                    None => {
                        proof {
                            assert(ring_drain(before.sleep, latest).0 == Seq::<u64>::empty());
                            assert(woken + Seq::<u64>::empty() =~= woken);
                        }
                        break ;
                    },
                }
            }
        }
    }

    /// Parks task `th` in the executor's sleep ring, `offset_clock` ticks
    /// after the thread's wall clock.
    pub fn push_back_sleep_task(&mut self, rt: &ThreadRuntime, offset_clock: u64, th: u64) -> (r:
        Result<(), ()>)
        requires
            old(self).wf(),
            old(self)@.sleep.exe_clock <= rt@.wall_clock ==> offset_clock + rt@.wall_clock
                <= u64::MAX,
        ensures
            final(self).wf(),
            r is Ok,
            final(self)@ == (ExecutorView {
                sleep: ring_push(old(self)@.sleep, rt@.wall_clock, offset_clock, th),
                ..old(self)@
            }),
    {
        self.task_sleep.push_back_sleep_task(thread_runtime_wall_clock(rt), offset_clock, th)
    }

    /// Takes the next task to poll off the run queue, dropping the ids of
    /// tasks that no longer exist.
    pub fn pop_runnable(&mut self) -> (r: Option<u64>)
        requires
            old(self).wf(),
            !old(self)@.run_queue_in_use,
        ensures
            final(self).wf(),
            (r, final(self)@) == pop_runnable_spec(old(self)@),
    {
        let ghost e0 = self@;
        let ghost k: int = 0;
        assert(e0.run_queue.skip(0) =~= e0.run_queue);
        loop
            invariant
                self.wf(),
                e0 == old(self)@,
                0 <= k <= e0.run_queue.len(),
                self@ == (ExecutorView { run_queue: e0.run_queue.skip(k), ..e0 }),
                first_live(e0.run_queue, e0.tasks, 0) == first_live(e0.run_queue, e0.tasks, k),
            decreases self@.run_queue.len(),
        {
            match self.task_run_queue.pop_front() {
                None => {
                    assert(k == e0.run_queue.len());
                    assert(first_live(e0.run_queue, e0.tasks, k) is None);
                    assert(self@.run_queue =~= Seq::<u64>::empty());
                    return None;
                },
                Some(task_id) => {
                    assert(e0.run_queue[k] == task_id);
                    assert(self.task_id_map@.dom() == self@.tasks.dom());
                    if self.task_id_map.contains_key(&task_id) {
                        assert(first_live(e0.run_queue, e0.tasks, k) == Some(k));
                        assert(self@.run_queue =~= e0.run_queue.skip(k + 1));
                        return Some(task_id);
                    }
                    proof {
                        assert(self@.run_queue =~= e0.run_queue.skip(k + 1));
                        k = k + 1;
                    }
                },
            }
        }
    }

    /// Starts polling task `task_id`: the thread records it as the running
    /// task, and the run queue is held until the poll ends.
    pub fn process_run_queue_begin(rt: &mut ThreadRuntime, exe: &mut Executor, task_id: u64)
        requires
            old(exe).wf(),
            old(exe)@.tasks.contains_key(task_id),
        ensures
            final(exe).wf(),
            (final(rt)@, final(exe)@) == begin_poll_spec(old(rt)@, old(exe)@, task_id),
    {
        rt.task_id_running = task_id;
        match exe.task_id_map.get(&task_id) {
            Some(task) => {
                rt.task_name_running = String::from_str(task.get_name());
            },
            None => {},
        }
        exe.run_queue_in_use = true;
    }

    /// Ends the poll of task `task_id` with `outcome`: a finished task is
    /// noted in `finished`, the thread forgets the running task, and the run
    /// queue is free again.
    pub fn process_run_queue_end(
        rt: &mut ThreadRuntime,
        exe: &mut Executor,
        task_id: u64,
        outcome: PollState,
        finished: &mut Vec<u64>,
    )
        requires
            old(exe).wf(),
        ensures
            final(exe).wf(),
            (final(rt)@, final(exe)@, final(finished)@) == end_poll_spec(
                old(rt)@,
                old(exe)@,
                task_id,
                outcome,
                old(finished)@,
            ),
    {
        match outcome {
            PollState::Ready => {
                finished.push(task_id);
            },
            PollState::Pending => {},
        }
        rt.task_id_running = 0;
        rt.task_name_running = String::new();
        exe.run_queue_in_use = false;
    }

    /// Drops the tasks that finished during a round.
    pub fn remove_finished(&mut self, finished: &Vec<u64>)
        requires
            old(self).wf(),
        ensures
            final(self).wf(),
            final(self)@ == remove_finished_spec(old(self)@, finished@),
    {
        let ghost e0 = self@;
        let mut i: usize = 0;
        assert(e0.tasks.remove_keys(finished@.take(0).to_set()) =~= e0.tasks);
        while i < finished.len()
            invariant
                self.wf(),
                i <= finished@.len(),
                self@ == (ExecutorView {
                    tasks: e0.tasks.remove_keys(finished@.take(i as int).to_set()),
                    ..e0
                }),
            decreases finished@.len() - i,
        {
            let id: u64 = finished[i];
            let ghost before = self.task_id_map@;
            self.task_id_map.remove(&id);
            proof {
                assert(finished@.take(i + 1) =~= finished@.take(i as int).push(id));
                finished@.take(i as int).lemma_push_to_set_commute(id);
                assert(self.task_id_map@ == before.remove(id));
                assert(self@.tasks =~= before.map_values(|t: Task| t@).remove(id));
                assert(self@.tasks =~= e0.tasks.remove_keys(finished@.take(i + 1).to_set()));
            }
            i = i + 1;
        }
        assert(finished@.take(i as int) =~= finished@);
    }
}

} // verus!
