//! The dispatcher's schedule: which task to spawn or join next.
//!
//! A [`Schedule`] counts the tasks spawned and joined so far. Tasks are
//! numbered by the position of their item. The tasks of one chunk are all
//! spawned before any of them is joined, and all joined, in order of
//! position, before the first task of the next chunk is spawned. After a
//! task has faulted the rest of its chunk is still joined, and no further
//! chunk is started.

use vstd::prelude::*;
use crate::chunking::{
    chunk_bounds, chunk_count, chunk_end, chunk_of, chunk_start, count_chunks,
    lemma_chunk_count_bounds, lemma_chunk_count_unique,
};
use crate::fault::TaskFault;

verus! {

/// What the dispatcher does next.
#[derive(Clone, Copy, Debug, PartialEq, Eq, Structural)]
pub enum Step {
    /// Spawn the task for the item at position `task`.
    Spawn { task: usize },
    /// Join the task that was spawned for the item at position `task`.
    Join { task: usize },
    /// Nothing is in flight and nothing is left to start.
    Done,
}

/// The progress of one bounded map-reduce over `len` items.
#[derive(Clone, Copy, Debug, PartialEq, Eq)]
pub struct Schedule {
    /// The number of items, one task each.
    pub len: usize,
    /// The largest number of tasks that may be unjoined at once.
    pub chunk_size: usize,
    /// Tasks `0 .. spawned` have been spawned.
    pub spawned: usize,
    /// Tasks `0 .. joined` have been joined.
    pub joined: usize,
    /// The first task that was found to have faulted, if any.
    pub fault: Option<TaskFault>,
}

impl Schedule {
    /// The number of chunks of which at least one task has been spawned.
    pub open spec fn chunks_started(self) -> nat {
        chunk_count(self.spawned as nat, self.chunk_size as nat)
    }

    /// The position at which the latest started chunk begins.
    pub open spec fn chunk_base(self) -> nat {
        if self.spawned == 0 {
            0
        } else {
            chunk_start(self.len as nat, self.chunk_size as nat, (self.chunks_started() - 1) as nat)
        }
    }

    /// The position just past the latest started chunk.
    pub open spec fn chunk_limit(self) -> nat {
        chunk_start(self.len as nat, self.chunk_size as nat, self.chunks_started())
    }

    /// The number of tasks spawned and not yet joined.
    pub open spec fn in_flight(self) -> nat {
        (self.spawned - self.joined) as nat
    }

    /// The states that a dispatcher can be in.
    pub open spec fn wf(self) -> bool {
        &&& self.chunk_size >= 1
        &&& self.spawned <= self.len
        &&& self.chunk_base() <= self.joined <= self.spawned
        &&& self.spawned < self.chunk_limit() ==> self.joined == self.chunk_base()
        &&& self.fault matches Some(fault) ==> self.chunk_base() <= fault.task < self.joined
    }

    /// The step that the state calls for.
    pub open spec fn next(self) -> Step {
        if self.spawned < self.chunk_limit() {
            Step::Spawn { task: self.spawned }
        } else if self.joined < self.spawned {
            Step::Join { task: self.joined }
        } else if self.fault is Some || self.spawned == self.len {
            Step::Done
        } else {
            Step::Spawn { task: self.spawned }
        }
    }

    /// The state after the task that `next` asked for was spawned.
    pub open spec fn after_spawn(self) -> Schedule {
        Schedule { spawned: (self.spawned + 1) as usize, ..self }
    }

    /// The state after the task that `next` asked for was joined;
    /// `completed` says whether it handed back an output.
    pub open spec fn after_join(self, completed: bool) -> Schedule {
        Schedule {
            joined: (self.joined + 1) as usize,
            fault: if self.fault is None && !completed {
                Some(TaskFault { task: self.joined })
            } else {
                self.fault
            },
            ..self
        }
    }

    /// The steps still to come add up to this much.
    pub open spec fn remaining(self) -> nat {
        (2 * self.len - self.spawned - self.joined) as nat
    }
}

/// Where the latest started chunk lies, spelled out without division:
/// with `spawned` written as `full * chunk_size + rest`.
pub proof fn lemma_chunk_position(s: Schedule)
    requires
        s.chunk_size >= 1,
        s.spawned <= s.len,
    ensures
        s.chunks_started() == s.spawned as int / s.chunk_size as int + (if s.spawned as int
            % s.chunk_size as int == 0 {
            0int
        } else {
            1int
        }),
        s.spawned as int % s.chunk_size as int == 0 ==> s.chunk_limit() == s.spawned,
        s.spawned as int % s.chunk_size as int == 0 && s.spawned > 0 ==> s.chunk_base()
            == s.spawned - s.chunk_size,
        s.spawned as int % s.chunk_size as int != 0 ==> s.chunk_base() == s.spawned - s.spawned as int
            % s.chunk_size as int,
        s.spawned as int % s.chunk_size as int != 0 ==> s.chunk_limit() == (if s.len
            - s.chunk_base() <= s.chunk_size {
            s.len as int
        } else {
            s.chunk_base() + s.chunk_size
        }),
        s.chunk_base() <= s.spawned <= s.chunk_limit() <= s.len,
        s.chunk_limit() - s.chunk_base() <= s.chunk_size,
{
    let c = s.chunk_size as int;
    let n = s.spawned as int;
    let full = n / c;
    let rest = n % c;
    assert(n == c * full + rest && 0 <= rest < c) by (nonlinear_arith)
        requires
            c >= 1,
            n >= 0,
            full == n / c,
            rest == n % c,
    ;
    assert(full >= 0) by (nonlinear_arith)
        requires
            n == c * full + rest,
            0 <= rest < c,
            n >= 0,
            c >= 1,
    ;
    assert(full * c == c * full) by (nonlinear_arith);
    assert((full + 1) * c == full * c + c) by (nonlinear_arith);
    assert((full - 1) * c == full * c - c) by (nonlinear_arith);
    let count: int = if rest == 0 {
        full
    } else {
        full + 1
    };
    lemma_chunk_count_unique(s.spawned as nat, s.chunk_size as nat, count as nat);
}

/// The barrier invariant: in every state that the dispatcher can be in,
/// no more than `chunk_size` tasks are spawned and not yet joined.
pub proof fn lemma_in_flight_bounded(s: Schedule)
    requires
        s.wf(),
    ensures
        s.in_flight() <= s.chunk_size,
{
    lemma_chunk_position(s);
}

/// A run that ends without a fault has spawned one task per item and
/// joined each, in as many chunks as `len / chunk_size` rounded up.
pub proof fn lemma_done_counts(s: Schedule)
    requires
        s.wf(),
        s.next() == Step::Done,
        s.fault is None,
    ensures
        s.spawned == s.len,
        s.joined == s.len,
        s.chunks_started() == chunk_count(s.len as nat, s.chunk_size as nat),
{
}

/// A run that ends with a fault has spawned and joined every task up to
/// the end of the chunk of the faulted task, and no task of a later chunk.
pub proof fn lemma_done_after_fault(s: Schedule)
    requires
        s.wf(),
        s.next() == Step::Done,
        s.fault is Some,
    ensures
        s.joined == s.spawned,
        s.spawned == chunk_end(
            s.len as nat,
            s.chunk_size as nat,
            chunk_of(s.fault->0.task as nat, s.chunk_size as nat),
        ),
        s.chunks_started() == chunk_of(s.fault->0.task as nat, s.chunk_size as nat) + 1,
{
    lemma_chunk_position(s);
    let c = s.chunk_size as int;
    let f = s.fault->0.task as int;
    let k = s.chunks_started() as int;
    lemma_chunk_count_bounds(s.spawned as nat, s.chunk_size as nat);
    // the faulted task lies in the latest started chunk, which is chunk k - 1
    assert(s.spawned > 0);
    assert(k >= 1);
    assert((k - 1) * c == k * c - c) by (nonlinear_arith);
    assert(s.chunk_base() == (k - 1) * c);
    assert(f / c == k - 1) by (nonlinear_arith)
        requires
            (k - 1) * c <= f < (k - 1) * c + c,
            c >= 1,
    ;
}

/// Every step but `Done` leaves a well-formed state with one step less to go.
pub proof fn lemma_step_preserves(s: Schedule, completed: bool)
    requires
        s.wf(),
    ensures
        s.next() is Spawn ==> s.after_spawn().wf() && s.after_spawn().remaining() + 1
            == s.remaining(),
        s.next() is Join ==> s.after_join(completed).wf() && s.after_join(completed).remaining()
            + 1 == s.remaining(),
        s.next() is Spawn ==> s.next()->Spawn_task == s.spawned && s.spawned < s.len
            && s.in_flight() < s.chunk_size && s.joined == s.after_spawn().chunk_base(),
        s.next() is Join ==> s.next()->Join_task == s.joined && s.joined < s.spawned && s.spawned
            == s.chunk_limit(),
{
    lemma_chunk_position(s);
    if s.next() is Spawn {
        let t = s.after_spawn();
        lemma_chunk_position(t);
        let c = s.chunk_size as int;
        let n = s.spawned as int;
        assert(n == c * (n / c) + n % c && 0 <= n % c < c) by (nonlinear_arith)
            requires
                c >= 1,
                n >= 0,
        ;
        assert((n + 1) == c * ((n + 1) / c) + (n + 1) % c && 0 <= (n + 1) % c < c)
            by (nonlinear_arith)
            requires
                c >= 1,
                n >= 0,
        ;
        if n % c == c - 1 {
            assert((n + 1) / c == n / c + 1 && (n + 1) % c == 0) by (nonlinear_arith)
                requires
                    n == c * (n / c) + n % c,
                    n % c == c - 1,
                    (n + 1) == c * ((n + 1) / c) + (n + 1) % c,
                    0 <= (n + 1) % c < c,
                    c >= 1,
            ;
        } else {
            assert((n + 1) / c == n / c && (n + 1) % c == n % c + 1) by (nonlinear_arith)
                requires
                    n == c * (n / c) + n % c,
                    0 <= n % c < c - 1,
                    (n + 1) == c * ((n + 1) / c) + (n + 1) % c,
                    0 <= (n + 1) % c < c,
                    c >= 1,
            ;
        }
    }
    if s.next() is Join {
        let t = s.after_join(completed);
        assert(t.chunks_started() == s.chunks_started());
        assert(t.chunk_base() == s.chunk_base());
        assert(t.chunk_limit() == s.chunk_limit());
    }
}

/// The barrier between chunks. A task is spawned only when every task
/// of the chunks before its own has been joined and no task of its own
/// chunk has; a task is joined only when every task of its chunk has
/// been spawned.
pub proof fn lemma_barrier(s: Schedule)
    requires
        s.wf(),
    ensures
        s.next() is Spawn ==> s.joined == s.after_spawn().chunk_base(),
        s.next() is Join ==> s.spawned == s.chunk_limit(),
{
    lemma_step_preserves(s, true);
}

/// The largest number of tasks in flight so far is reached while the
/// first chunk is being spawned: until `chunk_size` tasks are spawned,
/// none is joined.
pub proof fn lemma_first_chunk_unjoined(s: Schedule)
    requires
        s.wf(),
        s.next() is Spawn,
        s.spawned < s.chunk_size,
    ensures
        s.joined == 0,
{
    lemma_chunk_position(s);
    lemma_step_preserves(s, true);
    let c = s.chunk_size as int;
    let n = s.spawned as int;
    assert(n % c == n && n / c == 0) by (nonlinear_arith)
        requires
            0 <= n < c,
    ;
}

impl Schedule {
    /// The schedule of a run over `len` items before anything was spawned.
    pub fn new(len: usize, chunk_size: usize) -> (s: Schedule)
        requires
            chunk_size >= 1,
        ensures
            s == (Schedule { len, chunk_size, spawned: 0, joined: 0, fault: None }),
            s.wf(),
    {
        let s = Schedule { len, chunk_size, spawned: 0, joined: 0, fault: None };
        proof {
            lemma_chunk_position(s);
        }
        s
    }

    /// Decides the next step.
    pub fn step(&self) -> (step: Step)
        requires
            self.wf(),
        ensures
            step == self.next(),
    {
        let limit: usize = chunk_bounds(self.len, self.chunk_size, self.chunks()).0;
        if self.spawned < limit {
            Step::Spawn { task: self.spawned }
        } else if self.joined < self.spawned {
            Step::Join { task: self.joined }
        } else if self.fault.is_some() || self.spawned == self.len {
            Step::Done
        } else {
            Step::Spawn { task: self.spawned }
        }
    }

    /// Records that the task which `step` asked to spawn was spawned.
    pub fn spawned_one(self) -> (s: Schedule)
        requires
            self.wf(),
            self.next() is Spawn,
        ensures
            s == self.after_spawn(),
            s.wf(),
            s.in_flight() == self.in_flight() + 1,
    {
        proof {
            lemma_step_preserves(self, true);
        }
        Schedule { spawned: self.spawned + 1, ..self }
    }

    /// Records that the task which `step` asked to join was joined, and
    /// whether it completed with an output.
    pub fn joined_one(self, completed: bool) -> (s: Schedule)
        requires
            self.wf(),
            self.next() is Join,
        ensures
            s == self.after_join(completed),
            s.wf(),
            s.in_flight() + 1 == self.in_flight(),
    {
        proof {
            lemma_step_preserves(self, completed);
        }
        let fault = if self.fault.is_none() && !completed {
            Some(TaskFault { task: self.joined })
        } else {
            self.fault
        };
        Schedule { joined: self.joined + 1, fault, ..self }
    }

    /// The number of chunks started so far.
    pub fn chunks(&self) -> (count: usize)
        requires
            self.chunk_size >= 1,
        ensures
            count == self.chunks_started(),
    {
        count_chunks(self.spawned, self.chunk_size)
    }
}

} // verus!
