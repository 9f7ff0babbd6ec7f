//! The channel collector.
//!
//! [`plan`] is the state machine that orders the spawns, the receives
//! and the joins; [`gather`] carries it out on the caller's runtime.

pub mod gather;
pub mod plan;
