use crate::runtime::{Executor, ThreadRuntime};
use std::rc::Rc;
use vstd::prelude::*;

verus! {

/// Waking for handles shared by `Rc` on one thread: `wake` consumes the
/// handle, `wake_by_ref` borrows it. The thread's runtime and the executor
/// whose run queue the thread reaches are handed in.
pub trait LocalWake {
    fn wake(self: Rc<Self>, rt: &ThreadRuntime, exe: &mut Executor)
        requires
            old(exe).wf(),
    ;

    fn wake_by_ref(self: &Rc<Self>, rt: &ThreadRuntime, exe: &mut Executor)
        requires
            old(exe).wf(),
    ;
}

} // verus!
