//! Running a bounded map-reduce on the caller's task runtime.

use vstd::prelude::*;
use std::collections::VecDeque;
use crate::chunking::{chunk_count, chunk_end, chunk_of};
use crate::dispatcher::schedule::{
    Schedule, Step, lemma_chunk_position, lemma_done_after_fault, lemma_done_counts,
    lemma_first_chunk_unjoined, lemma_in_flight_bounded, lemma_step_preserves,
};
use crate::fault::TaskFault;
use crate::fold::{computes, folded, lemma_folded_empty, lemma_folded_is_fold_left, lemma_folded_push};
use crate::task::{Task, outcome_of, reversed};

verus! {

/// The task for `item`, spawned as number `task` by `spawn` and awaited
/// by `join`, can end with `outcome`.
pub open spec fn task_yields<I, H, O, S: Fn(usize, I) -> H, J: Fn(H) -> Option<O>>(
    spawn: S,
    join: J,
    task: usize,
    item: I,
    outcome: Option<O>,
) -> bool {
    exists|handle: H| #[trigger]
        spawn.ensures((task, item), handle) && join.ensures((handle,), outcome)
}

/// `outputs` holds, position by position, an output that the task of the
/// item at that position can complete with.
pub open spec fn mapped<I, H, O, S: Fn(usize, I) -> H, J: Fn(H) -> Option<O>>(
    spawn: S,
    join: J,
    items: Seq<I>,
    outputs: Seq<O>,
) -> bool {
    &&& outputs.len() == items.len()
    &&& forall|i: int|
        0 <= i < items.len() ==> task_yields(
            spawn,
            join,
            i as usize,
            items[i],
            Some(#[trigger] outputs[i]),
        )
}

/// `acc` is a fold, in the order of the items, of one output per item.
pub open spec fn reduced<I, H, O, Acc, S: Fn(usize, I) -> H, J: Fn(H) -> Option<O>, R: Fn(
    Acc,
    O,
) -> Acc>(spawn: S, join: J, reduce: R, items: Seq<I>, initial: Acc, acc: Acc) -> bool {
    exists|outputs: Seq<O>| #[trigger]
        mapped(spawn, join, items, outputs) && folded(reduce, initial, outputs, acc)
}

/// Task number `task` faulted, and every task before it completed.
pub open spec fn first_fault<I, H, O, S: Fn(usize, I) -> H, J: Fn(H) -> Option<O>>(
    spawn: S,
    join: J,
    items: Seq<I>,
    task: usize,
) -> bool {
    &&& task < items.len()
    &&& task_yields(spawn, join, task, items[task as int], None::<O>)
    &&& exists|outputs: Seq<O>| #[trigger] mapped(spawn, join, items.take(task as int), outputs)
}

/// One more completed task extends the outputs by one position.
pub proof fn lemma_mapped_push<I, H, O, S: Fn(usize, I) -> H, J: Fn(H) -> Option<O>>(
    spawn: S,
    join: J,
    items: Seq<I>,
    outputs: Seq<O>,
    item: I,
    output: O,
)
    requires
        mapped(spawn, join, items, outputs),
        task_yields(spawn, join, items.len() as usize, item, Some(output)),
    ensures
        mapped(spawn, join, items.push(item), outputs.push(output)),
{
    let longer = outputs.push(output);
    assert forall|i: int| 0 <= i < items.len() + 1 implies task_yields(
        spawn,
        join,
        i as usize,
        items.push(item)[i],
        Some(#[trigger] longer[i]),
    ) by {
        if i < items.len() {
            assert(longer[i] == outputs[i]);
        }
    }
}

/// The closures can be called wherever a run over `items` calls them:
/// `spawn` on every item with its position, `join` on every handle that
/// `spawn` can give back for an item, and `reduce` on every accumulator
/// that the outputs of the items before some position can fold to,
/// together with any output of the item at that position.
pub open spec fn runnable<I, H, O, Acc, S: Fn(usize, I) -> H, J: Fn(H) -> Option<O>, R: Fn(
    Acc,
    O,
) -> Acc>(spawn: S, join: J, reduce: R, items: Seq<I>, initial: Acc) -> bool {
    &&& forall|i: int| 0 <= i < items.len() ==> spawn.requires((i as usize, #[trigger] items[i]))
    &&& forall|i: int, handle: H|
        0 <= i < items.len() && #[trigger] spawn.ensures((i as usize, items[i]), handle)
            ==> join.requires((handle,))
    &&& forall|k: int, outputs: Seq<O>, acc: Acc, output: O|
        0 <= k < items.len() && #[trigger] mapped(spawn, join, items.take(k), outputs)
            && #[trigger] folded(reduce, initial, outputs, acc) && #[trigger] task_yields(
            spawn,
            join,
            k as usize,
            items[k],
            Some(output),
        ) ==> reduce.requires((acc, output))
}

/// Tasks compute the function `m`: whatever output a task completes
/// with is `m` of its item.
pub open spec fn maps_as<I, H, O, S: Fn(usize, I) -> H, J: Fn(H) -> Option<O>>(
    spawn: S,
    join: J,
    m: spec_fn(I) -> O,
) -> bool {
    forall|task: usize, item: I, handle: H, output: O|
        #[trigger] spawn.ensures((task, item), handle) && #[trigger] join.ensures(
            (handle,),
            Some(output),
        ) ==> output == m(item)
}

/// A bounded map-reduce is a sequential one. Where the tasks compute a
/// function `m` and the reducer a function `g`, the only result of a run
/// without a fault is `g` folded, left to right, over `m` of each item,
/// whatever the chunk size was. The reducer need be neither associative
/// nor commutative, since outputs are folded by position.
pub proof fn lemma_reduced_is_sequential_fold<I, H, O, Acc, S, J, R>(
    spawn: S,
    join: J,
    reduce: R,
    m: spec_fn(I) -> O,
    g: spec_fn(Acc, O) -> Acc,
    items: Seq<I>,
    initial: Acc,
    acc: Acc,
) where S: Fn(usize, I) -> H, J: Fn(H) -> Option<O>, R: Fn(Acc, O) -> Acc
    requires
        maps_as(spawn, join, m),
        computes(reduce, g),
        reduced(spawn, join, reduce, items, initial, acc),
    ensures
        acc == items.map_values(m).fold_left(initial, g),
{
    let outputs = choose|outputs: Seq<O>| #[trigger]
        mapped(spawn, join, items, outputs) && folded(reduce, initial, outputs, acc);
    assert forall|i: int| 0 <= i < items.len() implies outputs[i] == m(items[i]) by {
        assert(task_yields(spawn, join, i as usize, items[i], Some(outputs[i])));
    }
    assert(outputs =~= items.map_values(m));
    lemma_folded_is_fold_left(reduce, g, initial, outputs, acc);
}

/// What a bounded map-reduce did.
pub struct Reduction<Acc> {
    /// The fold of all outputs, or the fault of the first task, in order
    /// of position, that was found to have faulted.
    pub result: Result<Acc, TaskFault>,
    /// The number of tasks that were spawned.
    pub tasks_spawned: usize,
    /// The number of tasks that were joined.
    pub tasks_joined: usize,
    /// The number of chunks that were started.
    pub chunks_started: usize,
    /// The largest number of tasks that were unjoined at the same time.
    pub peak_in_flight: usize,
}

/// A bounded map-reduce under way: the schedule, the items that wait for
/// a task, the handles of the tasks in flight, and the accumulator.
pub struct Dispatcher<I, H, O, Acc, S, J, R> {
    spawn: S,
    join: J,
    reduce: R,
    schedule: Schedule,
    /// The items not yet handed to a task, last to first.
    pending: Vec<I>,
    /// The tasks spawned and not yet joined, oldest first.
    in_flight: VecDeque<Task<H>>,
    acc: Acc,
    peak: usize,
    items: Ghost<Seq<I>>,
    initial: Ghost<Acc>,
    /// The outputs folded so far; after a fault, those before the fault.
    outputs: Ghost<Seq<O>>,
}

impl<I, H, O, Acc, S, J, R> Dispatcher<I, H, O, Acc, S, J, R> where
    S: Fn(usize, I) -> H,
    J: Fn(H) -> Option<O>,
    R: Fn(Acc, O) -> Acc,
 {
    /// The schedule that the run has reached.
    pub closed spec fn schedule(&self) -> Schedule {
        self.schedule
    }

    /// All items of the run, in order.
    pub closed spec fn items(&self) -> Seq<I> {
        self.items@
    }

    /// The accumulator that the run began with.
    pub closed spec fn initial(&self) -> Acc {
        self.initial@
    }

    /// The closure that starts a task.
    pub closed spec fn spawner(&self) -> S {
        self.spawn
    }

    /// The closure that awaits a task.
    pub closed spec fn joiner(&self) -> J {
        self.join
    }

    /// The closure that folds an output into the accumulator.
    pub closed spec fn reducer(&self) -> R {
        self.reduce
    }

    /// The number of handles that the dispatcher holds.
    pub closed spec fn handles_held(&self) -> nat {
        self.in_flight@.len()
    }

    /// The largest number of handles that the dispatcher has held at once.
    pub closed spec fn peak(&self) -> usize {
        self.peak
    }

    /// What holds between the steps of a run.
    pub closed spec fn inv(&self) -> bool {
        let s = self.schedule;
        let all = self.items@;
        &&& runnable(self.spawn, self.join, self.reduce, all, self.initial@)
        &&& s.wf()
        &&& s.len == all.len()
        &&& self.pending.len() == s.len - s.spawned
        &&& forall|j: int|
            0 <= j < self.pending.len() ==> self.pending[j] == all[s.len - 1 - j]
        &&& self.in_flight@.len() == s.spawned - s.joined
        &&& forall|j: int|
            0 <= j < self.in_flight@.len() ==> (#[trigger] self.in_flight@[j]).ordinal == s.joined
                + j && self.spawn.ensures(
                ((s.joined + j) as usize, all[s.joined + j]),
                self.in_flight@[j].handle,
            )
        &&& s.fault is None ==> mapped(
            self.spawn,
            self.join,
            all.take(s.joined as int),
            self.outputs@,
        ) && folded(self.reduce, self.initial@, self.outputs@, self.acc)
        &&& s.fault matches Some(fault) ==> mapped(
            self.spawn,
            self.join,
            all.take(fault.task as int),
            self.outputs@,
        ) && task_yields(self.spawn, self.join, fault.task, all[fault.task as int], None::<O>)
        &&& s.joined == 0 ==> self.acc == self.initial@
        &&& self.peak == if s.spawned <= s.chunk_size {
            s.spawned
        } else {
            s.chunk_size
        }
    }

    /// The barrier invariant of a run: between any two steps the
    /// dispatcher holds exactly the handles that its schedule counts as
    /// in flight, and neither now nor before were they more than
    /// `chunk_size`.
    pub proof fn lemma_handles_bounded(&self)
        requires
            self.inv(),
        ensures
            self.schedule().wf(),
            self.schedule().len == self.items().len(),
            self.handles_held() == self.schedule().in_flight(),
            self.handles_held() <= self.schedule().chunk_size,
            self.peak() <= self.schedule().chunk_size,
    {
        lemma_in_flight_bounded(self.schedule);
    }

    /// Sets up a run over `items` without spawning anything yet.
    pub fn new(items: Vec<I>, chunk_size: usize, spawn: S, join: J, reduce: R, initial: Acc) -> (d:
        Self)
        requires
            chunk_size >= 1,
            runnable(spawn, join, reduce, items@, initial),
        ensures
            d.inv(),
            d.schedule() == (Schedule {
                len: items.len(),
                chunk_size,
                spawned: 0,
                joined: 0,
                fault: None,
            }),
            d.items() == items@,
            d.initial() == initial,
            d.spawner() == spawn,
            d.joiner() == join,
            d.reducer() == reduce,
    {
        let ghost all = items@;
        let len = items.len();
        let pending = reversed(items);
        let schedule = Schedule::new(len, chunk_size);
        proof {
            lemma_folded_empty::<Acc, O, R>(reduce, initial, initial);
            assert(all.take(0) =~= Seq::<I>::empty());
        }
        Dispatcher {
            spawn,
            join,
            reduce,
            schedule,
            pending,
            in_flight: VecDeque::new(),
            acc: initial,
            peak: 0,
            items: Ghost(all),
            initial: Ghost(initial),
            outputs: Ghost(Seq::empty()),
        }
    }

    /// Decides the next step.
    pub fn next_step(&self) -> (step: Step)
        requires
            self.inv(),
        ensures
            step == self.schedule().next(),
    {
        self.schedule.step()
    }

    /// Spawns the task that the schedule asks for.
    fn spawn_next(self) -> (d: Self)
        requires
            self.inv(),
            self.schedule().next() is Spawn,
        ensures
            d.inv(),
            d.schedule() == self.schedule().after_spawn(),
            d.items() == self.items(),
            d.initial() == self.initial(),
            d.spawner() == self.spawner(),
            d.joiner() == self.joiner(),
            d.reducer() == self.reducer(),
    {
        let ghost all = self.items@;
        let ghost before = self.schedule;
        let task: usize = self.schedule.spawned;
        proof {
            lemma_step_preserves(before, true);
            if before.spawned < before.chunk_size {
                lemma_first_chunk_unjoined(before);
            }
        }
        let mut pending = self.pending;
        let mut in_flight = self.in_flight;
        let ghost held = in_flight@;
        let schedule = self.schedule.spawned_one();
        proof {
            lemma_in_flight_bounded(schedule);
        }
        let mut peak = self.peak;
        match pending.pop() {
            Some(item) => {
                assert(item == all[task as int]);
                let handle = (self.spawn)(task, item);
                in_flight.push_back(Task { ordinal: task, handle });
                assert forall|j: int| 0 <= j < in_flight@.len() implies (#[trigger] in_flight@[j]).ordinal
                    == schedule.joined + j && self.spawn.ensures(
                    ((schedule.joined + j) as usize, all[schedule.joined + j]),
                    in_flight@[j].handle,
                ) by {
                    if j < held.len() {
                        assert(in_flight@[j] == held[j]);
                    }
                }
            },
            None => {},
        }
        if in_flight.len() > peak {
            peak = in_flight.len();
        }
        Dispatcher {
            spawn: self.spawn,
            join: self.join,
            reduce: self.reduce,
            schedule,
            pending,
            in_flight,
            acc: self.acc,
            peak,
            items: self.items,
            initial: self.initial,
            outputs: self.outputs,
        }
    }

    /// Joins the task that the schedule asks for and, unless a task has
    /// faulted, folds its output into the accumulator. The first join
    /// fault is kept as the fault of the run.
    fn join_next(self) -> (d: Self)
        requires
            self.inv(),
            self.schedule().next() is Join,
        ensures
            d.inv(),
            exists|completed: bool| d.schedule() == self.schedule().after_join(completed),
            d.items() == self.items(),
            d.initial() == self.initial(),
            d.spawner() == self.spawner(),
            d.joiner() == self.joiner(),
            d.reducer() == self.reducer(),
    {
        let ghost all = self.items@;
        let ghost before = self.schedule;
        let task: usize = self.schedule.joined;
        let mut in_flight = self.in_flight;
        let ghost held = in_flight@;
        let mut acc = self.acc;
        let mut schedule = self.schedule;
        let ghost mut outputs = self.outputs@;
        match in_flight.pop_front() {
            Some(running) => {
                assert(running == held[0]);
                assert(self.spawn.ensures((task, all[task as int]), running.handle));
                let joined = running.join(&self.join);
                assert(task_yields(self.spawn, self.join, task, all[task as int], outcome_of(joined)));
                match joined {
                    Ok(output) => {
                        if schedule.fault.is_none() {
                            let ghost prior = acc;
                            assert(mapped(self.spawn, self.join, all.take(task as int), outputs));
                            assert(folded(self.reduce, self.initial@, outputs, prior));
                            acc = (self.reduce)(acc, output);
                            proof {
                                lemma_folded_push(
                                    self.reduce,
                                    self.initial@,
                                    outputs,
                                    prior,
                                    output,
                                    acc,
                                );
                                lemma_mapped_push(
                                    self.spawn,
                                    self.join,
                                    all.take(task as int),
                                    outputs,
                                    all[task as int],
                                    output,
                                );
                                assert(all.take(task as int).push(all[task as int]) =~= all.take(
                                    task as int + 1,
                                ));
                                outputs = outputs.push(output);
                            }
                        }
                        schedule = schedule.joined_one(true);
                        assert(schedule == before.after_join(true));
                    },
                    Err(fault) => {
                        schedule = schedule.joined_one(false);
                        assert(schedule == before.after_join(false));
                        assert(before.fault is None ==> schedule.fault == Some(fault.fault));
                    },
                }
                assert forall|j: int| 0 <= j < in_flight@.len() implies (#[trigger] in_flight@[j]).ordinal
                    == schedule.joined + j && self.spawn.ensures(
                    ((schedule.joined + j) as usize, all[schedule.joined + j]),
                    in_flight@[j].handle,
                ) by {
                    assert(in_flight@[j] == held[j + 1]);
                }
            },
            None => {},
        }
        Dispatcher {
            spawn: self.spawn,
            join: self.join,
            reduce: self.reduce,
            schedule,
            pending: self.pending,
            in_flight,
            acc,
            peak: self.peak,
            items: self.items,
            initial: self.initial,
            outputs: Ghost(outputs),
        }
    }

    /// Takes the step that the schedule asks for: spawns one task, or
    /// joins one task and folds its output.
    pub fn advance(self) -> (d: Self)
        requires
            self.inv(),
            self.schedule().next() != Step::Done,
        ensures
            d.inv(),
            self.schedule().next() is Spawn ==> d.schedule() == self.schedule().after_spawn(),
            self.schedule().next() is Join ==> exists|completed: bool|
                d.schedule() == self.schedule().after_join(completed),
            d.schedule().remaining() + 1 == self.schedule().remaining(),
            d.items() == self.items(),
            d.initial() == self.initial(),
            d.spawner() == self.spawner(),
            d.joiner() == self.joiner(),
            d.reducer() == self.reducer(),
    {
        proof {
            lemma_step_preserves(self.schedule, true);
            lemma_step_preserves(self.schedule, false);
        }
        match self.schedule.step() {
            Step::Spawn { task } => self.spawn_next(),
            Step::Join { task } => self.join_next(),
            Step::Done => self,
        }
    }

    /// Ends a run that has nothing left to do and reports what it did.
    pub fn finish(self) -> (run: Reduction<Acc>)
        requires
            self.inv(),
            self.schedule().next() == Step::Done,
        ensures
            match run.result {
                Ok(acc) => reduced(
                    self.spawner(),
                    self.joiner(),
                    self.reducer(),
                    self.items(),
                    self.initial(),
                    acc,
                ),
                Err(fault) => first_fault(self.spawner(), self.joiner(), self.items(), fault.task),
            },
            self.items().len() == 0 ==> run.result == Ok::<Acc, TaskFault>(self.initial()),
            run.result is Ok <==> self.schedule().fault is None,
            run.result matches Err(fault) ==> self.schedule().fault == Some(fault),
            run.tasks_spawned == self.schedule().spawned,
            run.tasks_joined == self.schedule().spawned,
            run.chunks_started == self.schedule().chunks_started(),
            run.peak_in_flight == if self.items().len() <= self.schedule().chunk_size {
                self.items().len()
            } else {
                self.schedule().chunk_size as nat
            },
    {
        let ghost all = self.items@;
        proof {
            lemma_chunk_position(self.schedule);
            if self.schedule.fault is None {
                lemma_done_counts(self.schedule);
                assert(all.take(all.len() as int) =~= all);
            } else {
                lemma_done_after_fault(self.schedule);
                crate::chunking::lemma_chunks_tile(
                    all.len(),
                    self.schedule.chunk_size as nat,
                    chunk_of(self.schedule.fault->0.task as nat, self.schedule.chunk_size as nat),
                );
            }
        }
        let chunks = self.schedule.chunks();
        let result = match self.schedule.fault {
            Some(fault) => Err(fault),
            None => Ok(self.acc),
        };
        Reduction {
            result,
            tasks_spawned: self.schedule.spawned,
            tasks_joined: self.schedule.joined,
            chunks_started: chunks,
            peak_in_flight: self.peak,
        }
    }
}

/// Maps every item on a task of its own, at most `chunk_size` tasks at a
/// time, and folds the outputs into `initial` in the order of the items.
///
/// `spawn(task, item)` starts the work on `item` and gives back a handle;
/// `join(handle)` waits for it and gives back its output, or `None` if
/// the work terminated abnormally. The items are taken chunk by chunk:
/// all tasks of a chunk are spawned, then all are joined, and only then
/// is the next chunk begun. If a task faults, the rest of its chunk is
/// still joined, no further chunk is begun, and the result is the fault
/// of the first such task.
pub fn map_reduce_bounded<I, H, O, Acc, S, J, R>(
    items: Vec<I>,
    chunk_size: usize,
    spawn: S,
    join: J,
    reduce: R,
    initial: Acc,
) -> (run: Reduction<Acc>) where
    S: Fn(usize, I) -> H,
    J: Fn(H) -> Option<O>,
    R: Fn(Acc, O) -> Acc,

    requires
        chunk_size >= 1,
        runnable(spawn, join, reduce, items@, initial),
    ensures
        match run.result {
            Ok(acc) => reduced(spawn, join, reduce, items@, initial, acc),
            Err(fault) => first_fault(spawn, join, items@, fault.task),
        },
        items.len() == 0 ==> run.result == Ok::<Acc, TaskFault>(initial),
        run.result is Ok ==> run.tasks_spawned == items.len() && run.chunks_started == chunk_count(
            items.len() as nat,
            chunk_size as nat,
        ),
        run.result matches Err(fault) ==> run.tasks_spawned == chunk_end(
            items.len() as nat,
            chunk_size as nat,
            chunk_of(fault.task as nat, chunk_size as nat),
        ) && run.chunks_started == chunk_of(fault.task as nat, chunk_size as nat) + 1,
        run.tasks_joined == run.tasks_spawned,
        run.peak_in_flight == if items.len() <= chunk_size {
            items.len()
        } else {
            chunk_size
        },
{
    let ghost len = items.len();
    let mut dispatcher = Dispatcher::new(items, chunk_size, spawn, join, reduce, initial);
    loop
        invariant
            dispatcher.inv(),
            dispatcher.schedule().len == len,
            dispatcher.schedule().chunk_size == chunk_size,
            dispatcher.items() == items@,
            dispatcher.initial() == initial,
            dispatcher.spawner() == spawn,
            dispatcher.joiner() == join,
            dispatcher.reducer() == reduce,
        ensures
            dispatcher.schedule().next() == Step::Done,
        decreases dispatcher.schedule().remaining(),
    {
        match dispatcher.next_step() {
            Step::Done => break,
            _ => {
                dispatcher = dispatcher.advance();
            },
        }
    }
    proof {
        if dispatcher.schedule().fault is None {
            lemma_done_counts(dispatcher.schedule());
        } else {
            lemma_done_after_fault(dispatcher.schedule());
        }
    }
    dispatcher.finish()
}

} // verus!
