//! An in-process task scheduler.
//!
//! A task is bound to a schedule, a lazy stream of fire-times that never
//! decrease. The scheduler keeps the pending fires in a queue ordered by
//! time, and at each tick dispatches what is due to a runtime.

pub mod async_scheduler;
pub mod handle_manager;
pub mod prelude;
pub mod runtime;
pub mod schedule;
pub mod scheduler;
pub mod signals;
pub mod task;
pub mod tick_laws;
pub mod time;

pub use async_scheduler::{
    events_are_wf, AsyncSchedulerRunner, AsyncSchedulerRunning, Event, Polled,
};
pub use handle_manager::HandleManager;
pub use runtime::{Local, Promise, RunTask, Runtime, Wasm};
pub use scheduler::Scheduler;
pub use signals::{serve, serve_at, signal_is_wf, AsyncScheduler, Served, Signal};
pub use task::{Task, TaskRun, TaskUid};
pub use time::{now, Dtu, TimeDelta};
