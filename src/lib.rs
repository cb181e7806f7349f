//! Clock and timer-dispatch core of a dual-kernel real-time executive.
//!
//! The library models the monotonic master clock and its realtime slave,
//! per-clock latency compensation ("gravity"), the per-CPU timer bases,
//! the dispatch of due timers on a tick, and the reconciliation of pending
//! timers when the wall clock is adjusted.

pub mod gravity;
pub mod timer;
pub mod base;
pub mod clock;
pub mod dispatch;
pub mod adjust;
pub mod init;
