//! Scheduling core of a real-time engine: named units of work (tasks) and
//! broadcastable notifications (events), executed once per logical frame in a
//! fixed order, with frozen snapshots for passes that run while the live
//! containers keep accepting registrations, and the rendezvous barrier that
//! interleaves a logic thread with a consumer thread.
//!
//! Time is counted in whole nanoseconds (`u64`); an interval is an optional
//! period in nanoseconds.

pub mod named;
pub mod seqs;
pub mod task;
pub mod timing;
pub mod task_container;
pub mod event;
pub mod event_container;
pub mod task_manager;
pub mod event_handler;
pub mod sync;
pub mod settings;
pub mod engine;
pub mod keyboard;
pub mod mouse;
pub mod lifecycle;
