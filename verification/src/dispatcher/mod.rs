//! The bounded map-reduce dispatcher.
//!
//! [`schedule`] is the state machine that decides what happens next;
//! [`run`] drives it with the caller's task runtime.

pub mod run;
pub mod schedule;
