use std::collections::VecDeque;
use vstd::prelude::*;

use crate::async_scheduler::{apply_event, Books, Event};
use crate::handle_manager::HandleManager;
use crate::runtime::{RunTask, Runtime};
use crate::schedule::Schedule;
use crate::scheduler::{dispatches, tick, Scheduler};
use crate::task::{Task, TaskRun, TaskUid};
use crate::time::{now, Dtu};

verus! {

/// What the front of a signal-driven scheduler sends to its main loop.
pub enum Signal<S, F> {
    AddTask(TaskUid, Task<S, F>),
    DeleteTask(TaskUid),
    Execute,
    Quit,
}

/// The front of a scheduler whose main loop runs elsewhere and is driven by
/// signals. It numbers the tasks, keeps track of whether the loop runs, and
/// queues the signals that are to be sent to the loop.
pub struct AsyncScheduler<R, S, F> {
    pub runtime: R,
    /// The number that the next task gets.
    pub next_id: u64,
    pub running: bool,
    /// The signals that have not been sent yet, the oldest first.
    pub outbox: VecDeque<Signal<S, F>>,
}

impl<R, S, F> AsyncScheduler<R, S, F> {
    /// A front for `runtime`: not running, with nothing to send, numbering
    /// from zero.
    pub fn new(runtime: R) -> (made: Self)
        ensures
            made.runtime == runtime,
            made.next_id == 0,
            !made.running,
            made.outbox@ == Seq::<Signal<S, F>>::empty(),
    {
        Self { runtime, next_id: 0, running: false, outbox: VecDeque::new() }
    }

    /// Marks the main loop as running. Returns whether the loop is to be
    /// started now: `false` when it was running already.
    pub fn start(&mut self) -> (spawn: bool)
        ensures
            spawn == !old(self).running,
            final(self).running,
            final(self).runtime == old(self).runtime,
            final(self).next_id == old(self).next_id,
            final(self).outbox == old(self).outbox,
    {
        if self.running {
            false
        } else {
            self.running = true;
            true
        }
    }

    /// Queues the signal that adds `task`, under the next number. The
    /// numbers start again from zero after the last one.
    pub fn add_task(&mut self, task: Task<S, F>) -> (id: TaskUid)
        ensures
            id.0 == old(self).next_id,
            final(self).next_id == (if old(self).next_id == u64::MAX {
                0
            } else {
                old(self).next_id + 1
            }),
            final(self).outbox@ == old(self).outbox@.push(Signal::AddTask(id, task)),
            final(self).running == old(self).running,
            final(self).runtime == old(self).runtime,
    {
        let id = TaskUid(self.next_id as u128);
        self.next_id = if self.next_id == u64::MAX {
            0
        } else {
            self.next_id + 1
        };
        self.outbox.push_back(Signal::AddTask(id, task));
        id
    }

    /// Queues the signal that removes the task `key`.
    pub fn delete_task(&mut self, key: TaskUid)
        ensures
            final(self).outbox@ == old(self).outbox@.push(Signal::DeleteTask(key)),
            final(self).next_id == old(self).next_id,
            final(self).running == old(self).running,
            final(self).runtime == old(self).runtime,
    {
        self.outbox.push_back(Signal::DeleteTask(key));
    }

    /// Queues the signal that makes the main loop tick.
    pub fn execute(&mut self)
        ensures
            final(self).outbox@ == old(self).outbox@.push(Signal::Execute),
            final(self).next_id == old(self).next_id,
            final(self).running == old(self).running,
            final(self).runtime == old(self).runtime,
    {
        self.outbox.push_back(Signal::Execute);
    }

    /// Ends the front and hands back what is still to be sent: where the
    /// main loop runs, the signal that stops it comes last.
    pub fn quit(self) -> (unsent: VecDeque<Signal<S, F>>)
        ensures
            unsent@ == (if self.running {
                self.outbox@.push(Signal::Quit)
            } else {
                self.outbox@
            }),
    {
        let mut unsent = self.outbox;
        if self.running {
            unsent.push_back(Signal::Quit);
        }
        unsent
    }

    /// Whether the main loop has been started.
    pub fn is_running(&self) -> (running: bool)
        ensures
            running == self.running,
    {
        self.running
    }

    /// Takes the oldest signal that has not been sent yet.
    pub fn take_signal(&mut self) -> (signal: Option<Signal<S, F>>)
        ensures
            final(self).next_id == old(self).next_id,
            final(self).running == old(self).running,
            final(self).runtime == old(self).runtime,
            match signal {
                Some(s) => old(self).outbox@.len() > 0 && s == old(self).outbox@[0]
                    && final(self).outbox@ == old(self).outbox@.drop_first(),
                None => old(self).outbox@.len() == 0 && final(self).outbox@ == old(self).outbox@,
            },
    {
        let signal = self.outbox.pop_front();
        proof {
            if signal is Some {
                assert(self.outbox@ =~= old(self).outbox@.drop_first());
            }
        }
        signal
    }
}

/// Whether the task that `signal` adds, if it adds one, has a well-formed
/// schedule: what a caller that cannot see the invariants tests before it
/// serves the signal.
pub fn signal_is_wf<S: Schedule, F>(signal: &Signal<S, F>) -> (ok: bool)
    ensures
        ok == (signal matches Signal::AddTask(_, task) ==> task.schedule.wf()),
{
    match signal {
        Signal::AddTask(_, task) => task.schedule.is_wf(),
        _ => true,
    }
}

/// What the main loop did with one signal.
pub enum Served {
    /// The loop goes on; a tick dispatched `fired`.
    Continue { fired: Vec<TaskRun> },
    /// The loop ends.
    Quit,
}

/// One round of the main loop, at the instant `now`: adds or removes a task,
/// ticks the scheduler, or ends the loop, as `signal` says.
pub fn serve_at<R: Runtime, S: Schedule, F: RunTask<R>, H: HandleManager<R::Handle>>(
    scheduler: &mut Scheduler<R, S, F, H>,
    signal: Signal<S, F>,
    now: Dtu,
) -> (served: Served)
    requires
        old(scheduler).wf(),
        signal matches Signal::AddTask(_, task) ==> task.schedule.wf(),
    ensures
        final(scheduler).wf(),
        !(signal is Execute) ==> {
            &&& final(scheduler).runtime == old(scheduler).runtime
            &&& final(scheduler).handle_manager == old(scheduler).handle_manager
        },
        match signal {
            Signal::AddTask(key, task) => {
                let books = apply_event(
                    Books { pending: old(scheduler).next_up@, tasks: old(scheduler).task_map@ },
                    Event::AddTask(key, task),
                );
                &&& served matches Served::Continue { fired } && fired@.len() == 0
                &&& final(scheduler).next_up@ == books.pending
                &&& final(scheduler).task_map@ == books.tasks
            },
            Signal::DeleteTask(key) => {
                &&& served matches Served::Continue { fired } && fired@.len() == 0
                &&& final(scheduler).next_up@ == old(scheduler).next_up@
                &&& final(scheduler).task_map@ == old(scheduler).task_map@.remove(key.0)
            },
            Signal::Execute => {
                let done = tick(
                    old(scheduler).next_up@,
                    old(scheduler).task_map@,
                    now@,
                    usize::MAX as nat,
                );
                &&& served matches Served::Continue { fired } && fired@ == done.fired && dispatches(
                    old(scheduler).task_map@,
                    fired@,
                    old(scheduler).runtime,
                    old(scheduler).handle_manager,
                    final(scheduler).runtime,
                    final(scheduler).handle_manager,
                )
                &&& final(scheduler).next_up@ == done.pending
                &&& final(scheduler).task_map@ == done.tasks
            },
            Signal::Quit => {
                &&& served is Quit
                &&& final(scheduler).next_up@ == old(scheduler).next_up@
                &&& final(scheduler).task_map@ == old(scheduler).task_map@
            },
        },
{
    match signal {
        Signal::AddTask(key, task) => {
            scheduler.add_task(key, task);
            Served::Continue { fired: Vec::new() }
        },
        Signal::DeleteTask(key) => {
            scheduler.delete_task(key);
            Served::Continue { fired: Vec::new() }
        },
        Signal::Execute => {
            let fired = scheduler.execute(now);
            Served::Continue { fired }
        },
        Signal::Quit => Served::Quit,
    }
}

/// One round of the main loop at the current instant of the system clock.
pub fn serve<R: Runtime, S: Schedule, F: RunTask<R>, H: HandleManager<R::Handle>>(
    scheduler: &mut Scheduler<R, S, F, H>,
    signal: Signal<S, F>,
) -> (served: Served)
    requires
        old(scheduler).wf(),
        signal matches Signal::AddTask(_, task) ==> task.schedule.wf(),
    ensures
        final(scheduler).wf(),
        served is Quit <==> signal is Quit,
        !(signal is Execute) ==> {
            &&& final(scheduler).runtime == old(scheduler).runtime
            &&& final(scheduler).handle_manager == old(scheduler).handle_manager
        },
        signal is Execute ==> (served matches Served::Continue { fired } && dispatches(
            old(scheduler).task_map@,
            fired@,
            old(scheduler).runtime,
            old(scheduler).handle_manager,
            final(scheduler).runtime,
            final(scheduler).handle_manager,
        )),
        signal is Execute ==> exists|at: Dtu|
            {
                let done = #[trigger] tick(
                    old(scheduler).next_up@,
                    old(scheduler).task_map@,
                    at@,
                    usize::MAX as nat,
                );
                &&& served matches Served::Continue { fired } && fired@ == done.fired
                &&& final(scheduler).next_up@ == done.pending
                &&& final(scheduler).task_map@ == done.tasks
            },
        !(signal is Execute) ==> {
            &&& served matches Served::Continue { fired } ==> fired@.len() == 0
            &&& final(scheduler).next_up@ == (match signal {
                Signal::AddTask(key, task) => apply_event(
                    Books { pending: old(scheduler).next_up@, tasks: old(scheduler).task_map@ },
                    Event::AddTask(key, task),
                ).pending,
                _ => old(scheduler).next_up@,
            })
            &&& final(scheduler).task_map@ == (match signal {
                Signal::AddTask(key, task) => apply_event(
                    Books { pending: old(scheduler).next_up@, tasks: old(scheduler).task_map@ },
                    Event::AddTask(key, task),
                ).tasks,
                Signal::DeleteTask(key) => old(scheduler).task_map@.remove(key.0),
                _ => old(scheduler).task_map@,
            })
        },
{
    let at = now();
    let served = serve_at(scheduler, signal, at);
    proof {
        if signal is Execute {
            let done = tick(
                old(scheduler).next_up@,
                old(scheduler).task_map@,
                at@,
                usize::MAX as nat,
            );
            assert(scheduler.next_up@ == done.pending);
        }
    }
    served
}

} // verus!
