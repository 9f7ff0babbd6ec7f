//! Bounded fan-out / fan-in of tasks.
//!
//! The crate holds the decisions of two concurrency patterns and proves
//! them, while the runtime that actually schedules work stays with the
//! caller, who passes it in as closures:
//!
//! * [`dispatcher`]: a map-reduce that runs a workload in chunks, never
//!   keeps more than one chunk of tasks unjoined, and folds the outputs
//!   in the order of the inputs;
//! * [`collector`]: a fixed number of producers whose messages are
//!   received exactly once each before every producer is joined.
//!
//! [`task`] is the primitive both are built on, [`fault`] names what can
//! go wrong, and [`chunking`] and [`fold`] carry the arithmetic and the
//! algebra. [`words`] and [`digits`] prepare and map a workload of
//! numbers written as text. [`list`] and [`aliases`] stand on their own.

pub mod aliases;
pub mod chunking;
pub mod collector;
pub mod digits;
pub mod dispatcher;
pub mod fault;
pub mod fold;
pub mod list;

pub mod task;
pub mod words;
