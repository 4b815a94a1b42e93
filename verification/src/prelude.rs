//! The names that most callers need.

pub use crate::async_scheduler::{
    events_are_wf, AsyncSchedulerRunner, AsyncSchedulerRunning, Event, Polled,
};
pub use crate::handle_manager::HandleManager;
pub use crate::runtime::{Local, Promise, RunTask, Runtime, Wasm};
pub use crate::schedule::{
    every, forward_to_default, After, Before, Cron, CronError, DynSchedule, IntoSchedule, Iter,
    Never, Once, Or, Period, PeriodError, Schedule, ScheduleDynBuilder, ScheduleExt, Then,
    Throttling,
};
pub use crate::scheduler::Scheduler;
pub use crate::signals::{serve, serve_at, signal_is_wf, AsyncScheduler, Served, Signal};
pub use crate::task::{Task, TaskRun, TaskUid};
pub use crate::time::{now, Dtu, TimeDelta};
