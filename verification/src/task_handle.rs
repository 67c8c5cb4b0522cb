use crate::my_wake::LocalWake;
use crate::runtime::{resume_spec, Executor, ThreadRuntime};
use std::rc::Rc;
use vstd::prelude::*;

verus! {

/// The handle by which a task is woken: its id.
pub struct TaskHandle {
    pub task_id: u64,
}

impl TaskHandle {
    /// The handle of task `task_id`.
    pub fn new(task_id: u64) -> (h: Self)
        ensures
            h.task_id == task_id,
    {
        TaskHandle { task_id }
    }
}

impl LocalWake for TaskHandle {
    /// Puts the task back on the run queue (see `wake_by_ref`).
    fn wake(self: Rc<TaskHandle>, rt: &ThreadRuntime, exe: &mut Executor)
        ensures
            final(exe).wf(),
            final(exe)@ == resume_spec(rt@, old(exe)@, self.task_id).1,
    {
        self.wake_by_ref(rt, exe);
    }

    /// Puts the task back on the run queue of `exe`; where that is refused
    /// (see `resume_spec`), the wake is lost.
    fn wake_by_ref(self: &Rc<TaskHandle>, rt: &ThreadRuntime, exe: &mut Executor)
        ensures
            final(exe).wf(),
            final(exe)@ == resume_spec(rt@, old(exe)@, self.task_id).1,
    {
        match Executor::resume_task(rt, exe, self.task_id) {
            Ok(()) => {},
            Err(()) => {},
        }
    }
}

} // verus!
