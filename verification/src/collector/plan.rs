//! The collector's plan: spawn every producer, then receive once per
//! producer, then join every producer.
//!
//! The number of receives is fixed to the number of producers. No join
//! begins before the last receive has returned: a receive that never
//! returns keeps the collector where it is.

use vstd::prelude::*;

verus! {

/// What the collector does next.
#[derive(Clone, Copy, Debug, PartialEq, Eq, Structural)]
pub enum Action {
    /// Spawn the producer with this ordinal.
    Spawn { producer: usize },
    /// Receive one message from the channel, waiting for it if need be.
    Receive,
    /// Join the producer with this ordinal.
    Join { producer: usize },
    /// Every producer was spawned, answered for and joined.
    Done,
}

/// The progress of one collection from `expected` producers.
#[derive(Clone, Copy, Debug, PartialEq, Eq, Structural)]
pub struct Plan {
    /// The number of producers, and of receives.
    pub expected: usize,
    /// Producers `0 .. spawned` have been spawned.
    pub spawned: usize,
    /// The number of receives that have returned.
    pub received: usize,
    /// Producers `0 .. joined` have been joined.
    pub joined: usize,
}

impl Plan {
    /// The states that a collector can be in: the three phases follow
    /// one another and never overlap.
    pub open spec fn wf(self) -> bool {
        &&& self.spawned <= self.expected
        &&& self.received <= self.expected
        &&& self.joined <= self.expected
        &&& self.received > 0 ==> self.spawned == self.expected
        &&& self.joined > 0 ==> self.received == self.expected
    }

    /// The action that the state calls for.
    pub open spec fn next(self) -> Action {
        if self.spawned < self.expected {
            Action::Spawn { producer: self.spawned }
        } else if self.received < self.expected {
            Action::Receive
        } else if self.joined < self.expected {
            Action::Join { producer: self.joined }
        } else {
            Action::Done
        }
    }

    /// The state after the action that `next` asked for was carried out.
    pub open spec fn after(self) -> Plan {
        match self.next() {
            Action::Spawn { producer } => Plan { spawned: (self.spawned + 1) as usize, ..self },
            Action::Receive => Plan { received: (self.received + 1) as usize, ..self },
            Action::Join { producer } => Plan { joined: (self.joined + 1) as usize, ..self },
            Action::Done => self,
        }
    }

    /// The number of actions still to come.
    pub open spec fn remaining(self) -> nat {
        (3 * self.expected - self.spawned - self.received - self.joined) as nat
    }
}

/// The phases do not overlap: a receive is asked for only once every
/// producer was spawned, a join only once a receive has returned for
/// every producer, and the collection is done only once every producer
/// was joined.
pub proof fn lemma_phases_in_order(p: Plan)
    requires
        p.wf(),
    ensures
        p.next() is Receive ==> p.spawned == p.expected && p.joined == 0,
        p.next() is Join ==> p.spawned == p.expected && p.received == p.expected,
        p.next() is Done ==> p.spawned == p.expected && p.received == p.expected && p.joined
            == p.expected,
        p.next() is Spawn ==> p.received == 0 && p.joined == 0,
{
}

/// A receive that has not returned holds everything up: as long as
/// fewer receives have returned than there are producers, the collector
/// neither joins a producer nor finishes.
pub proof fn lemma_short_of_messages(p: Plan)
    requires
        p.wf(),
        p.received < p.expected,
    ensures
        p.next() is Spawn || p.next() is Receive,
        p.joined == 0,
{
}

/// Every action but `Done` leaves a well-formed state with one action
/// less to go.
pub proof fn lemma_action_preserves(p: Plan)
    requires
        p.wf(),
        p.next() != Action::Done,
    ensures
        p.after().wf(),
        p.after().expected == p.expected,
        p.after().remaining() + 1 == p.remaining(),
{
}

impl Plan {
    /// The plan of a collection from `expected` producers before
    /// anything was spawned.
    pub fn new(expected: usize) -> (p: Plan)
        ensures
            p == (Plan { expected, spawned: 0, received: 0, joined: 0 }),
            p.wf(),
    {
        Plan { expected, spawned: 0, received: 0, joined: 0 }
    }

    /// Decides the next action.
    pub fn action(&self) -> (action: Action)
        ensures
            action == self.next(),
    {
        if self.spawned < self.expected {
            Action::Spawn { producer: self.spawned }
        } else if self.received < self.expected {
            Action::Receive
        } else if self.joined < self.expected {
            Action::Join { producer: self.joined }
        } else {
            Action::Done
        }
    }

    /// Records that the action which `action` asked for was carried out.
    pub fn advanced(self) -> (p: Plan)
        requires
            self.wf(),
        ensures
            p == self.after(),
            p.wf(),
    {
        if self.spawned < self.expected {
            Plan { spawned: self.spawned + 1, ..self }
        } else if self.received < self.expected {
            Plan { received: self.received + 1, ..self }
        } else if self.joined < self.expected {
            Plan { joined: self.joined + 1, ..self }
        } else {
            self
        }
    }
}

} // verus!
