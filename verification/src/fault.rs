//! What can go wrong with a task or a channel, as plain values.

use vstd::prelude::*;

verus! {

/// A spawned unit of work terminated abnormally.
///
/// `task` is the ordinal of the task: its position among the tasks of
/// the call that spawned it.
#[derive(Clone, Copy, Debug, PartialEq, Eq, Structural)]
pub struct TaskFault {
    pub task: usize,
}

/// Awaiting a task's handle failed because the task itself faulted.
#[derive(Clone, Copy, Debug, PartialEq, Eq, Structural)]
pub struct JoinFault {
    pub fault: TaskFault,
}

/// A receive found that the channel has no message and will get none,
/// while a message was still due.
///
/// It was receive number `position`, counting from 0, of `expected`.
#[derive(Clone, Copy, Debug, PartialEq, Eq, Structural)]
pub struct ChannelStarvation {
    pub expected: usize,
    pub position: usize,
}

impl JoinFault {
    /// The join fault of the task with the given ordinal.
    pub fn of_task(task: usize) -> (fault: JoinFault)
        ensures
            fault == (JoinFault { fault: TaskFault { task } }),
    {
        JoinFault { fault: TaskFault { task } }
    }
}

} // verus!
