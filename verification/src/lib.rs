//! Task/Pomodoro session scheduler and time-accounting engine.
//!
//! Tasks are scheduled against dates and timed through a fixed Pomodoro cycle
//! (alternating work/break stages). The engine keeps every timing fact in
//! plain records — tasks, Pomodoro sessions, time logs and at most one active
//! session per task — and reconstructs all state from those records plus an
//! injected "now" instant, so the caller decides where time comes from and
//! state survives a restart. At most one task is ever running (in progress or
//! waiting out a break) at a time, and each task has at most one open time
//! log; both invariants are part of the store's verified well-formedness.

pub mod accounting;
pub mod clock;
pub mod engine;
pub mod laws;
pub mod lifecycle;
pub mod model;
pub mod queries;
pub mod sessions;
pub mod store;
pub mod ui;
