use vstd::prelude::*;

use crate::task::TaskRun;

verus! {

/// A policy for the handles that the runtime hands back: the scheduler calls
/// `manage` once for each fire that it has dispatched, right after the
/// dispatch.
pub trait HandleManager<H>: Sized {
    /// What `manage` does with a handle: it takes the manager from this state
    /// to `after`. A manager that does not say what it does admits every
    /// outcome.
    open spec fn manages(&self, task_run: TaskRun, handle: H, after: Self) -> bool {
        true
    }

    /// Takes the handle of the dispatch of `task_run`.
    fn manage(&mut self, task_run: &TaskRun, handle: H)
        ensures
            old(self).manages(*task_run, handle, *final(self)),
    ;
}

/// Collects the handles in the order of dispatch.
impl<H> HandleManager<H> for Vec<H> {
    open spec fn manages(&self, task_run: TaskRun, handle: H, after: Self) -> bool {
        after@ == self@.push(handle)
    }

    fn manage(&mut self, task_run: &TaskRun, handle: H) {
        self.push(handle);
    }
}

/// Discards every handle.
impl<T> HandleManager<T> for () {
    open spec fn manages(&self, task_run: TaskRun, handle: T, after: Self) -> bool {
        after == *self
    }

    fn manage(&mut self, task_run: &TaskRun, handle: T) {
    }
}

} // verus!
