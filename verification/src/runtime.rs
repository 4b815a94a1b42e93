use vstd::prelude::*;

use crate::task::TaskRun;

verus! {

/// What tasks are dispatched to. The scheduler knows a runtime only by the
/// type of the handles that a dispatch on it gives.
pub trait Runtime {
    type Handle;
}

/// The body of a task: started once for each fire, on the runtime `R`.
pub trait RunTask<R: Runtime> {
    /// What one run of the body does: it takes the runtime from `before` to
    /// `after` and gives `handle`. A body that does not say what it does
    /// admits every outcome.
    open spec fn runs(&self, before: R, task_run: TaskRun, after: R, handle: R::Handle) -> bool {
        true
    }

    /// Runs the body for the fire `task_run`.
    fn run(&self, runtime: &mut R, task_run: &TaskRun) -> (handle: R::Handle)
        ensures
            self.runs(*old(runtime), *task_run, *final(runtime), handle),
    ;
}

/// Runs tasks inline, on the thread that ticks the scheduler.
#[derive(Debug, Clone, Copy, Default)]
pub struct Local;

impl Local {
    /// The runtime that runs tasks inline.
    pub fn new() -> (made: Self)
        ensures
            made == Local,
    {
        Local
    }
}

impl Runtime for Local {
    type Handle = ();
}

/// Runs tasks as promises of a JavaScript host.
#[derive(Debug, Clone, Copy, Default)]
pub struct Promise;

impl Runtime for Promise {
    type Handle = ();
}

/// Runs tasks on the event loop of a WebAssembly host.
#[derive(Debug, Clone, Copy, Default)]
pub struct Wasm;

impl Runtime for Wasm {
    type Handle = ();
}

} // verus!
