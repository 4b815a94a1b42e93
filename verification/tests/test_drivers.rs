use std::collections::VecDeque;
use std::sync::atomic::{AtomicUsize, Ordering};
use std::sync::Arc;

use tsuki_scheduler::schedule::Iter;
use tsuki_scheduler::{
    events_are_wf, serve, serve_at, signal_is_wf, AsyncScheduler, AsyncSchedulerRunner, Dtu, Event, Local, Polled, RunTask,
    Scheduler, Served, Signal, Task, TaskRun, TaskUid, TimeDelta,
};

fn t(n: i128) -> Dtu {
    Dtu::from_nanos(n)
}

#[derive(Clone)]
struct Body {
    runs: Arc<AtomicUsize>,
}

impl Body {
    fn new() -> Self {
        Body { runs: Arc::new(AtomicUsize::new(0)) }
    }

    fn runs(&self) -> usize {
        self.runs.load(Ordering::SeqCst)
    }
}

impl RunTask<Local> for Body {
    fn run(&self, _runtime: &mut Local, _task_run: &TaskRun) {
        self.runs.fetch_add(1, Ordering::SeqCst);
    }
}

fn task(items: &[i128], body: &Body) -> Task<Iter, Body> {
    Task::new(Iter::new(items.iter().map(|n| t(*n)).collect()), body.clone())
}

fn fires(fired: &[TaskRun]) -> Vec<(u128, i128)> {
    fired.iter().map(|run| (run.key().into_inner(), run.time().as_nanos())).collect()
}

fn kinds(events: &VecDeque<Event<Iter, Body>>) -> Vec<(bool, u128)> {
    events
        .iter()
        .map(|event| match event {
            Event::AddTask(key, _) => (true, key.into_inner()),
            Event::RemoveTask(key) => (false, key.into_inner()),
        })
        .collect()
}

fn runner() -> AsyncSchedulerRunner<Local, Iter, Body> {
    AsyncSchedulerRunner::new(Scheduler::new(Local::new()))
}

#[test]
fn a_runner_ticks_every_hundred_milliseconds_by_default() {
    let runner = runner();
    assert_eq!(runner.execute_duration, TimeDelta::milliseconds(100));
    let runner = runner.with_execute_duration(TimeDelta::seconds(3));
    assert_eq!(runner.execute_duration, TimeDelta::seconds(3));
}

#[test]
fn a_poll_applies_the_events_in_order_and_ticks() {
    let mut running = runner().run_with_shutdown_signal();
    let a = Body::new();
    let b = Body::new();
    let c = Body::new();
    let mut mailbox = VecDeque::new();
    mailbox.push_back(Event::AddTask(TaskUid::new(1), task(&[1, 20], &a)));
    mailbox.push_back(Event::AddTask(TaskUid::new(2), task(&[2], &b)));
    mailbox.push_back(Event::RemoveTask(TaskUid::new(2)));
    mailbox.push_back(Event::RemoveTask(TaskUid::new(3)));
    mailbox.push_back(Event::AddTask(TaskUid::new(3), task(&[3], &c)));
    match running.poll_at(false, &mut mailbox, t(10)) {
        Polled::Pending { wake_after, fired } => {
            assert_eq!(wake_after, TimeDelta::milliseconds(100));
            assert_eq!(fires(&fired), vec![(1, 1), (3, 3)]);
        }
        Polled::Ready(_) => panic!("no shutdown was signalled"),
    }
    assert!(mailbox.is_empty());
    assert!(running.event_queue.is_empty());
    assert_eq!((a.runs(), b.runs(), c.runs()), (1, 0, 1));
    let scheduler = &running.runner.as_ref().expect("still running").scheduler;
    assert_eq!(fires(&scheduler.next_up), vec![(1, 20)]);
    assert_eq!(scheduler.task_map.len(), 1);
}

#[test]
fn a_task_added_and_due_fires_in_the_same_tick() {
    let mut running = runner().with_execute_duration(TimeDelta::seconds(1)).run_with_shutdown_signal();
    let a = Body::new();
    let mut mailbox = VecDeque::new();
    match running.poll_at(false, &mut mailbox, t(10)) {
        Polled::Pending { wake_after, fired } => {
            assert_eq!(wake_after, TimeDelta::seconds(1));
            assert!(fired.is_empty());
        }
        Polled::Ready(_) => panic!("no shutdown was signalled"),
    }
    mailbox.push_back(Event::AddTask(TaskUid::new(1), task(&[10, 11], &a)));
    match running.poll_at(false, &mut mailbox, t(10)) {
        Polled::Pending { fired, .. } => assert_eq!(fires(&fired), vec![(1, 10)]),
        Polled::Ready(_) => panic!("no shutdown was signalled"),
    }
    assert_eq!(a.runs(), 1);
}

#[test]
fn shutdown_hands_the_runner_back_and_keeps_the_events() {
    let mut running = runner().run_with_shutdown_signal();
    let a = Body::new();
    let mut mailbox = VecDeque::new();
    mailbox.push_back(Event::AddTask(TaskUid::new(1), task(&[50], &a)));
    assert!(matches!(running.poll_at(false, &mut mailbox, t(10)), Polled::Pending { .. }));
    // events that were taken and not applied go back in front of the later ones
    running.event_queue.push_back(Event::RemoveTask(TaskUid::new(8)));
    running.event_queue.push_back(Event::AddTask(TaskUid::new(9), task(&[1], &a)));
    mailbox.push_back(Event::RemoveTask(TaskUid::new(1)));
    mailbox.push_back(Event::RemoveTask(TaskUid::new(2)));
    match running.poll_at(true, &mut mailbox, t(100)) {
        Polled::Ready(runner) => {
            assert_eq!(fires(&runner.scheduler.next_up), vec![(1, 50)]);
            assert_eq!(runner.scheduler.task_map.len(), 1);
        }
        Polled::Pending { .. } => panic!("shutdown was signalled"),
    }
    assert_eq!(kinds(&mailbox), vec![(false, 8), (true, 9), (false, 1), (false, 2)]);
    assert!(running.event_queue.is_empty());
    assert!(running.runner.is_none());
    assert_eq!(a.runs(), 0);
}

#[test]
fn the_front_numbers_tasks_and_queues_signals() {
    let mut front: AsyncScheduler<Local, Iter, Body> = AsyncScheduler::new(Local::new());
    assert!(!front.is_running());
    assert!(front.start());
    assert!(front.is_running());
    assert!(!front.start());
    let body = Body::new();
    assert_eq!(front.add_task(task(&[1], &body)), TaskUid::new(0));
    assert_eq!(front.add_task(task(&[2], &body)), TaskUid::new(1));
    front.delete_task(TaskUid::new(0));
    front.execute();
    assert_eq!(front.next_id, 2);
    assert!(matches!(front.take_signal(), Some(Signal::AddTask(TaskUid(0), _))));
    assert!(matches!(front.take_signal(), Some(Signal::AddTask(TaskUid(1), _))));
    let unsent = front.quit();
    assert_eq!(unsent.len(), 3);
    assert!(matches!(unsent[0], Signal::DeleteTask(TaskUid(0))));
    assert!(matches!(unsent[1], Signal::Execute));
    assert!(matches!(unsent[2], Signal::Quit));
}

#[test]
fn the_front_starts_numbering_again_after_the_last_number() {
    let mut front: AsyncScheduler<Local, Iter, Body> = AsyncScheduler::new(Local::new());
    front.next_id = u64::MAX;
    let body = Body::new();
    assert_eq!(front.add_task(task(&[1], &body)), TaskUid::new(u64::MAX as u128));
    assert_eq!(front.add_task(task(&[1], &body)), TaskUid::new(0));
}

#[test]
fn a_front_that_never_ran_sends_no_quit() {
    let mut front: AsyncScheduler<Local, Iter, Body> = AsyncScheduler::new(Local::new());
    assert!(front.take_signal().is_none());
    front.execute();
    let unsent = front.quit();
    assert_eq!(unsent.len(), 1);
    assert!(matches!(unsent[0], Signal::Execute));
}

#[test]
fn the_main_loop_serves_each_signal() {
    let mut scheduler: Scheduler<Local, Iter, Body> = Scheduler::new(Local::new());
    let a = Body::new();
    let b = Body::new();
    let served = serve_at(&mut scheduler, Signal::AddTask(TaskUid::new(1), task(&[1, 5], &a)), t(0));
    assert!(matches!(served, Served::Continue { fired } if fired.is_empty()));
    serve_at(&mut scheduler, Signal::AddTask(TaskUid::new(2), task(&[2], &b)), t(0));
    serve_at(&mut scheduler, Signal::DeleteTask(TaskUid::new(2)), t(0));
    match serve_at(&mut scheduler, Signal::Execute, t(3)) {
        Served::Continue { fired } => assert_eq!(fires(&fired), vec![(1, 1)]),
        Served::Quit => panic!("the loop goes on"),
    }
    assert_eq!((a.runs(), b.runs()), (1, 0));
    assert!(matches!(serve_at(&mut scheduler, Signal::Quit, t(100)), Served::Quit));
    assert_eq!(a.runs(), 1);
    assert_eq!(fires(&scheduler.next_up), vec![(1, 5)]);
    // by the system clock, the fire at five nanoseconds after the epoch is long due
    match serve(&mut scheduler, Signal::Execute) {
        Served::Continue { fired } => assert_eq!(fires(&fired), vec![(1, 5)]),
        Served::Quit => panic!("the loop goes on"),
    }
    assert!(matches!(serve(&mut scheduler, Signal::Quit), Served::Quit));
}

#[test]
fn a_default_runner_ticks_every_hundred_milliseconds() {
    let runner: AsyncSchedulerRunner<Local, Iter, Body> = AsyncSchedulerRunner::default();
    assert_eq!(runner.execute_duration, TimeDelta::milliseconds(100));
    assert!(runner.scheduler.next_up.is_empty());
    assert!(runner.scheduler.task_map.is_empty());
}

#[test]
fn a_later_add_event_replaces_an_earlier_one_of_its_id() {
    let mut running = runner().run_with_shutdown_signal();
    let first = Body::new();
    let second = Body::new();
    let mut mailbox = VecDeque::new();
    mailbox.push_back(Event::AddTask(TaskUid::new(1), task(&[5], &first)));
    mailbox.push_back(Event::AddTask(TaskUid::new(1), task(&[7], &second)));
    match running.poll_at(false, &mut mailbox, t(10)) {
        Polled::Pending { fired, .. } => assert_eq!(fires(&fired), vec![(1, 7)]),
        Polled::Ready(_) => panic!("no shutdown was signalled"),
    }
    assert_eq!((first.runs(), second.runs()), (0, 1));
}

#[test]
fn events_and_signals_tell_whether_their_tasks_are_well_formed() {
    let body = Body::new();
    let mut broken = task(&[1, 2], &body);
    broken.schedule.items.swap(0, 1);
    let mut events = VecDeque::new();
    assert!(events_are_wf(&events));
    events.push_back(Event::RemoveTask(TaskUid::new(1)));
    events.push_back(Event::AddTask(TaskUid::new(1), task(&[1, 2], &body)));
    assert!(events_are_wf(&events));
    events.push_back(Event::AddTask(TaskUid::new(2), broken));
    events.push_back(Event::RemoveTask(TaskUid::new(2)));
    assert!(!events_are_wf(&events));
    let mut broken = task(&[1, 2], &body);
    broken.schedule.pos = 5;
    assert!(!signal_is_wf(&Signal::AddTask(TaskUid::new(1), broken)));
    assert!(signal_is_wf(&Signal::AddTask(TaskUid::new(1), task(&[1], &body))));
    assert!(signal_is_wf(&Signal::<Iter, Body>::DeleteTask(TaskUid::new(1))));
    assert!(signal_is_wf(&Signal::<Iter, Body>::Execute));
    assert!(signal_is_wf(&Signal::<Iter, Body>::Quit));
}
