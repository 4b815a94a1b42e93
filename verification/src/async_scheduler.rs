use std::collections::VecDeque;
use vstd::prelude::*;

use crate::handle_manager::HandleManager;
use crate::runtime::{RunTask, Runtime};
use crate::schedule::Schedule;
use crate::scheduler::{
    dispatches, enqueue, settled, stepped, tick, tick_steps, without_fires_of, Scheduler,
};
use crate::task::{Task, TaskRun, TaskUid};
use crate::time::{Dtu, TimeDelta};

verus! {

/// The interval between two ticks of a runner that was given no other, in
/// nanoseconds: 100 milliseconds.
pub const DEFAULT_EXECUTE_NANOS: i128 = 100_000_000;

/// What a client asks of the scheduler.
pub enum Event<S, F> {
    AddTask(TaskUid, Task<S, F>),
    RemoveTask(TaskUid),
}

/// The queue and the bindings of a scheduler.
pub struct Books<S, F> {
    pub pending: Seq<TaskRun>,
    pub tasks: Map<u128, Task<S, F>>,
}

/// The books after one event: `AddTask` as `Scheduler::add_task` does it,
/// `RemoveTask` as `Scheduler::delete_task` does it.
pub open spec fn apply_event<S: Schedule, F>(books: Books<S, F>, event: Event<S, F>) -> Books<
    S,
    F,
> {
    match event {
        Event::AddTask(key, task) => match task.schedule.yielded() {
            Some(first) => Books {
                pending: enqueue(
                    without_fires_of(books.pending, key),
                    TaskRun { key, time: first },
                ),
                tasks: books.tasks.insert(key.0, stepped(task)),
            },
            None => books,
        },
        Event::RemoveTask(key) => Books {
            pending: books.pending,
            tasks: books.tasks.remove(key.0),
        },
    }
}

/// The books after the events of `events`, the first of them first.
pub open spec fn apply_events<S: Schedule, F>(books: Books<S, F>, events: Seq<Event<S, F>>) -> Books<
    S,
    F,
>
    decreases events.len(),
{
    if events.len() == 0 {
        books
    } else {
        apply_events(apply_event(books, events[0]), events.drop_first())
    }
}

/// Whether every task that `events` adds has a well-formed schedule.
pub open spec fn events_wf<S: Schedule, F>(events: Seq<Event<S, F>>) -> bool {
    forall|i: int|
        0 <= i < events.len() ==> (#[trigger] events[i] matches Event::AddTask(_, task)
            ==> task.schedule.wf())
}

/// Whether every task that `events` adds has a well-formed schedule: what a
/// caller that cannot see the invariants tests before a poll.
pub fn events_are_wf<S: Schedule, F>(events: &VecDeque<Event<S, F>>) -> (ok: bool)
    ensures
        ok == events_wf(events@),
{
    let mut i: usize = 0;
    while i < events.len()
        invariant
            forall|k: int|
                0 <= k < i && k < events@.len() ==> (#[trigger] events@[k] matches Event::AddTask(
                    _,
                    task,
                ) ==> task.schedule.wf()),
        decreases events.len() - i,
    {
        match &events[i] {
            Event::AddTask(_, task) => {
                if !task.schedule.is_wf() {
                    return false;
                }
            },
            Event::RemoveTask(_) => {},
        }
        i = i + 1;
    }
    true
}

/// Drives a scheduler from a mailbox of events: each tick applies the events
/// that have come in, in their order, and then dispatches what is due.
pub struct AsyncSchedulerRunner<R: Runtime, S: Schedule, F: RunTask<R>, H = ()> {
    /// The scheduler that is driven.
    pub scheduler: Scheduler<R, S, F, H>,
    /// The interval between two ticks.
    pub execute_duration: TimeDelta,
}

/// What one poll of a running driver gives.
pub enum Polled<R: Runtime, S: Schedule, F: RunTask<R>, H> {
    /// Shutdown was signalled: the runner is handed back.
    Ready(AsyncSchedulerRunner<R, S, F, H>),
    /// A tick was made: the driver is to be woken after `wake_after`.
    Pending { wake_after: TimeDelta, fired: Vec<TaskRun> },
}

/// A driver that has been started: the runner, and the events that it has
/// taken out of the mailbox and not yet applied.
pub struct AsyncSchedulerRunning<R: Runtime, S: Schedule, F: RunTask<R>, H> {
    pub runner: Option<AsyncSchedulerRunner<R, S, F, H>>,
    pub event_queue: VecDeque<Event<S, F>>,
}

impl<R: Runtime + Default, S: Schedule, F: RunTask<R>, H: Default> Default for AsyncSchedulerRunner<
    R,
    S,
    F,
    H,
> {
    /// A runner for a scheduler without tasks that ticks every 100
    /// milliseconds.
    fn default() -> (made: Self)
        ensures
            made.scheduler.wf(),
            made.scheduler.next_up@ == Seq::<TaskRun>::empty(),
            made.scheduler.task_map@ == Map::<u128, Task<S, F>>::empty(),
            made.execute_duration@ == DEFAULT_EXECUTE_NANOS,
    {
        Self {
            scheduler: Scheduler::default(),
            execute_duration: TimeDelta { nanos: DEFAULT_EXECUTE_NANOS },
        }
    }
}

impl<R: Runtime, S: Schedule, F: RunTask<R>, H: HandleManager<R::Handle>> AsyncSchedulerRunner<
    R,
    S,
    F,
    H,
> {
    /// The books of the scheduler.
    pub open spec fn books(&self) -> Books<S, F> {
        Books { pending: self.scheduler.next_up@, tasks: self.scheduler.task_map@ }
    }

    /// A runner for `scheduler` that ticks every 100 milliseconds.
    pub fn new(scheduler: Scheduler<R, S, F, H>) -> (made: Self)
        ensures
            made.scheduler == scheduler,
            made.execute_duration@ == DEFAULT_EXECUTE_NANOS,
    {
        Self { scheduler, execute_duration: TimeDelta { nanos: DEFAULT_EXECUTE_NANOS } }
    }

    /// The same runner, ticking every `duration`.
    pub fn with_execute_duration(self, duration: TimeDelta) -> (made: Self)
        ensures
            made.scheduler == self.scheduler,
            made.execute_duration == duration,
    {
        let mut made = self;
        made.execute_duration = duration;
        made
    }

    /// Starts the driver: nothing has been taken out of the mailbox yet.
    pub fn run_with_shutdown_signal(self) -> (running: AsyncSchedulerRunning<R, S, F, H>)
        ensures
            running.runner == Some(self),
            running.event_queue@ == Seq::<Event<S, F>>::empty(),
    {
        AsyncSchedulerRunning { runner: Some(self), event_queue: VecDeque::new() }
    }

    /// Applies the events of `events` to the scheduler, the first of them
    /// first, and leaves `events` empty.
    pub fn apply(&mut self, events: &mut VecDeque<Event<S, F>>)
        requires
            old(self).scheduler.wf(),
            events_wf(old(events)@),
        ensures
            final(self).scheduler.wf(),
            final(self).books() == apply_events(old(self).books(), old(events)@),
            final(self).execute_duration == old(self).execute_duration,
            final(self).scheduler.runtime == old(self).scheduler.runtime,
            final(self).scheduler.handle_manager == old(self).scheduler.handle_manager,
            final(events)@.len() == 0,
    {
        while events.len() > 0
            invariant
                self.scheduler.wf(),
                events_wf(events@),
                self.execute_duration == old(self).execute_duration,
                self.scheduler.runtime == old(self).scheduler.runtime,
                self.scheduler.handle_manager == old(self).scheduler.handle_manager,
                apply_events(self.books(), events@) == apply_events(old(self).books(), old(events)@),
            decreases events.len(),
        {
            let ghost before = events@;
            let ghost books = self.books();
            let event = events.pop_front().unwrap();
            proof {
                assert(events@ =~= before.drop_first());
                assert(event == before[0]);
                assert forall|i: int| 0 <= i < events@.len() implies (#[trigger] events@[i] matches Event::AddTask(
                    _,
                    task,
                ) ==> task.schedule.wf()) by {
                    assert(events@[i] == before[i + 1]);
                }
            }
            match event {
                Event::AddTask(key, task) => {
                    self.scheduler.add_task(key, task);
                },
                Event::RemoveTask(key) => {
                    self.scheduler.delete_task(key);
                },
            }
            proof {
                assert(self.books() == apply_event(books, before[0]));
            }
        }
    }
}

impl<R: Runtime, S: Schedule, F: RunTask<R>, H: HandleManager<R::Handle>> AsyncSchedulerRunning<
    R,
    S,
    F,
    H,
> {
    /// One poll of the driver.
    ///
    /// Where shutdown has been signalled, the events that were taken out of
    /// the mailbox and not applied go back to its front, in their order, and
    /// the runner is handed back. Otherwise the mailbox is swapped for the
    /// driver's own buffer, the events taken are applied in their order, the
    /// scheduler ticks at `now`, and the driver asks to be woken after the
    /// runner's interval.
    pub fn poll_at(&mut self, shutdown: bool, mailbox: &mut VecDeque<Event<S, F>>, now: Dtu) -> (polled:
        Polled<R, S, F, H>)
        requires
            old(self).runner matches Some(runner) && runner.scheduler.wf(),
            !shutdown ==> events_wf(old(mailbox)@),
        ensures
            shutdown ==> {
                &&& polled matches Polled::Ready(runner) && Some(runner) == old(self).runner
                &&& final(self).runner is None
                &&& final(self).event_queue@.len() == 0
                &&& final(mailbox)@ == old(self).event_queue@ + old(mailbox)@
            },
            !shutdown ==> {
                &&& polled matches Polled::Pending { wake_after, fired }
                &&& final(self).runner matches Some(runner)
                &&& runner.scheduler.wf()
                &&& wake_after == old(self).runner.unwrap().execute_duration
                &&& runner.execute_duration == wake_after
                &&& final(mailbox)@ == old(self).event_queue@
                &&& final(self).event_queue@.len() == 0
                &&& ({
                    let taken = apply_events(old(self).runner.unwrap().books(), old(mailbox)@);
                    let done = tick(taken.pending, taken.tasks, now@, usize::MAX as nat);
                    &&& runner.scheduler.next_up@ == done.pending
                    &&& runner.scheduler.task_map@ == done.tasks
                    &&& fired@ == done.fired
                    &&& forall|i: int| 0 <= i < fired@.len() ==> (#[trigger] fired@[i]).time@ <= now@
                    &&& settled(runner.scheduler.next_up@, now@) || tick_steps(
                        taken.pending,
                        taken.tasks,
                        now@,
                        usize::MAX as nat,
                    ) == usize::MAX
                    &&& dispatches(
                        taken.tasks,
                        fired@,
                        old(self).runner.unwrap().scheduler.runtime,
                        old(self).runner.unwrap().scheduler.handle_manager,
                        runner.scheduler.runtime,
                        runner.scheduler.handle_manager,
                    )
                })
            },
    {
        if shutdown {
            let runner = self.runner.take().unwrap();
            while self.event_queue.len() > 0
                invariant
                    self.runner is None,
                    self.event_queue@ + mailbox@ == old(self).event_queue@ + old(mailbox)@,
                decreases self.event_queue.len(),
            {
                let ghost local = self.event_queue@;
                let ghost shared = mailbox@;
                let event = self.event_queue.pop_back().unwrap();
                mailbox.push_front(event);
                proof {
                    assert(self.event_queue@ + mailbox@ =~= local + shared);
                }
            }
            proof {
                assert(self.event_queue@ + mailbox@ =~= mailbox@);
            }
            Polled::Ready(runner)
        } else {
            std::mem::swap(&mut self.event_queue, mailbox);
            let mut runner = self.runner.take().unwrap();
            runner.apply(&mut self.event_queue);
            let fired = runner.scheduler.execute(now);
            let wake_after = runner.execute_duration;
            self.runner = Some(runner);
            Polled::Pending { wake_after, fired }
        }
    }
}

} // verus!
