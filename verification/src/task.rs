//! The task primitive: a unit of work that is spawned once and joined once.
//!
//! The crate does not schedule anything itself. The caller hands in two
//! closures that stand for its runtime: one that starts a unit of work
//! and gives back a handle, and one that waits on a handle and gives
//! back the work's output, or `None` if the work terminated abnormally.
//! A [`Task`] pairs such a handle with the ordinal of the work; joining
//! consumes it, so no handle is awaited twice.

use vstd::prelude::*;
use crate::fault::{JoinFault, TaskFault};

verus! {

/// A spawned unit of work that has not been joined yet.
pub struct Task<H> {
    /// The position of the task among the tasks of its caller.
    pub ordinal: usize,
    /// The runtime's handle on the work.
    pub handle: H,
}

/// What joining a task gives: the output, or the fault of that task.
pub open spec fn settled<O>(ordinal: usize, outcome: Option<O>) -> Result<O, JoinFault> {
    match outcome {
        Some(output) => Ok(output),
        None => Err(JoinFault { fault: TaskFault { task: ordinal } }),
    }
}

/// The outcome that `result` was settled from.
pub open spec fn outcome_of<O>(result: Result<O, JoinFault>) -> Option<O> {
    match result {
        Ok(output) => Some(output),
        Err(_) => None,
    }
}

/// Task number `ordinal`, started by `spawn` and awaited by `join`, can
/// end with `outcome`.
pub open spec fn can_yield<H, O, S: Fn(usize) -> H, J: Fn(H) -> Option<O>>(
    spawn: S,
    join: J,
    ordinal: usize,
    outcome: Option<O>,
) -> bool {
    exists|handle: H| #[trigger]
        spawn.ensures((ordinal,), handle) && join.ensures((handle,), outcome)
}

impl<H> Task<H> {
    /// Starts the work with the given ordinal.
    pub fn spawn<S: Fn(usize) -> H>(ordinal: usize, spawn: &S) -> (task: Task<H>)
        requires
            spawn.requires((ordinal,)),
        ensures
            task.ordinal == ordinal,
            spawn.ensures((ordinal,), task.handle),
    {
        Task { ordinal, handle: spawn(ordinal) }
    }

    /// Waits for the work to end and hands back its output, or the fault
    /// of the task if the work terminated abnormally.
    pub fn join<O, J: Fn(H) -> Option<O>>(self, join: &J) -> (result: Result<O, JoinFault>)
        requires
            join.requires((self.handle,)),
        ensures
            join.ensures((self.handle,), outcome_of(result)),
            result == settled(self.ordinal, outcome_of(result)),
    {
        let ordinal = self.ordinal;
        match join(self.handle) {
            Some(output) => Ok(output),
            None => Err(JoinFault::of_task(ordinal)),
        }
    }
}

/// The same items, last to first.
pub fn reversed<T>(items: Vec<T>) -> (back: Vec<T>)
    ensures
        back@ == items@.reverse(),
{
    let mut items = items;
    let ghost whole = items@;
    let mut back: Vec<T> = Vec::new();
    while items.len() > 0
        invariant
            items.len() + back.len() == whole.len(),
            forall|i: int| 0 <= i < items.len() ==> items[i] == whole[i],
            forall|i: int| 0 <= i < back.len() ==> back[i] == whole[whole.len() - 1 - i],
        decreases items.len(),
    {
        match items.pop() {
            Some(item) => back.push(item),
            None => {},
        }
    }
    assert(back@ =~= whole.reverse());
    back
}

/// Spawns tasks `0 .. count`, in that order, and joins none of them.
pub fn spawn_all<H, S: Fn(usize) -> H>(count: usize, spawn: &S) -> (tasks: Vec<Task<H>>)
    requires
        forall|ordinal: usize| ordinal < count ==> spawn.requires((ordinal,)),
    ensures
        tasks.len() == count,
        forall|i: int|
            0 <= i < count ==> (#[trigger] tasks[i]).ordinal == i && spawn.ensures(
                (i as usize,),
                tasks[i].handle,
            ),
{
    let mut tasks: Vec<Task<H>> = Vec::new();
    let mut next: usize = 0;
    while next < count
        invariant
            next <= count,
            tasks.len() == next,
            forall|ordinal: usize| ordinal < count ==> spawn.requires((ordinal,)),
            forall|i: int|
                0 <= i < next ==> (#[trigger] tasks[i]).ordinal == i && spawn.ensures(
                    (i as usize,),
                    tasks[i].handle,
                ),
        decreases count - next,
    {
        tasks.push(Task::spawn(next, spawn));
        next = next + 1;
    }
    tasks
}

/// Joins every task, first to last, and hands back what each gave.
///
/// A task that faulted does not stop the others from being joined.
pub fn join_all<H, O, J: Fn(H) -> Option<O>>(tasks: Vec<Task<H>>, join: &J) -> (results: Vec<
    Result<O, JoinFault>,
>)
    requires
        forall|i: int| 0 <= i < tasks.len() ==> join.requires((#[trigger] tasks[i].handle,)),
    ensures
        results.len() == tasks.len(),
        forall|i: int|
            0 <= i < tasks.len() ==> join.ensures(
                (tasks[i].handle,),
                outcome_of(#[trigger] results[i]),
            ) && results[i] == settled(tasks[i].ordinal, outcome_of(results[i])),
{
    let ghost whole = tasks@;
    let mut waiting = reversed(tasks);
    let mut results: Vec<Result<O, JoinFault>> = Vec::new();
    while waiting.len() > 0
        invariant
            waiting.len() + results.len() == whole.len(),
            forall|i: int| 0 <= i < waiting.len() ==> waiting[i] == whole[whole.len() - 1 - i],
            forall|i: int| 0 <= i < whole.len() ==> join.requires((#[trigger] whole[i].handle,)),
            forall|i: int|
                0 <= i < results.len() ==> join.ensures(
                    (whole[i].handle,),
                    outcome_of(#[trigger] results[i]),
                ) && results[i] == settled(whole[i].ordinal, outcome_of(results[i])),
        decreases waiting.len(),
    {
        match waiting.pop() {
            Some(task) => {
                assert(task == whole[results.len() as int]);
                let result = task.join(join);
                results.push(result);
            },
            None => {},
        }
    }
    results
}

/// Spawns `count` tasks, all at once, then joins each in the order in
/// which they were spawned.
///
/// Entry `i` of the result is the output of task `i`, or that task's
/// fault.
pub fn fan_out<H, O, S: Fn(usize) -> H, J: Fn(H) -> Option<O>>(
    count: usize,
    spawn: S,
    join: J,
) -> (results: Vec<Result<O, JoinFault>>)
    requires
        forall|ordinal: usize| ordinal < count ==> spawn.requires((ordinal,)),
        forall|ordinal: usize, handle: H|
            ordinal < count && #[trigger] spawn.ensures((ordinal,), handle) ==> join.requires(
                (handle,),
            ),
    ensures
        results.len() == count,
        forall|i: int|
            0 <= i < count ==> can_yield(spawn, join, i as usize, outcome_of(#[trigger] results[i]))
                && results[i] == settled(i as usize, outcome_of(results[i])),
{
    let tasks = spawn_all(count, &spawn);
    assert forall|i: int| 0 <= i < tasks.len() implies join.requires(
        (#[trigger] tasks[i].handle,),
    ) by {
        assert(spawn.ensures((i as usize,), tasks[i].handle));
    }
    let results = join_all(tasks, &join);
    assert forall|i: int| 0 <= i < count implies can_yield(
        spawn,
        join,
        i as usize,
        outcome_of(#[trigger] results[i]),
    ) && results[i] == settled(i as usize, outcome_of(results[i])) by {
        assert(spawn.ensures((i as usize,), tasks[i].handle));
    }
    results
}

} // verus!
