//! Collecting one message per producer on the caller's runtime.

use vstd::prelude::*;
use std::collections::VecDeque;
use crate::collector::plan::{Action, Plan, lemma_action_preserves, lemma_phases_in_order};
use crate::fault::{ChannelStarvation, JoinFault};
use crate::task::{Task, can_yield, outcome_of, settled};

verus! {

/// What a collection brought in.
pub struct Collection<M, O> {
    /// What each receive brought, in the order of the receives: a
    /// message, or the finding that the channel had run dry.
    pub messages: Vec<Result<M, ChannelStarvation>>,
    /// What joining each producer gave, in the order of the producers.
    pub joins: Vec<Result<O, JoinFault>>,
}

/// What receive number `position` of `expected` records when the
/// channel hands it `outcome`.
pub open spec fn delivered<M>(expected: usize, position: usize, outcome: Option<M>) -> Result<
    M,
    ChannelStarvation,
> {
    match outcome {
        Some(message) => Ok(message),
        None => Err(ChannelStarvation { expected, position }),
    }
}

/// What the channel handed to the receive that recorded `entry`.
pub open spec fn handed<M>(entry: Result<M, ChannelStarvation>) -> Option<M> {
    match entry {
        Ok(message) => Some(message),
        Err(_) => None,
    }
}

/// `messages` holds, receive by receive, what `receive` can hand out.
pub open spec fn received_from<M, V: Fn() -> Option<M>>(
    receive: V,
    expected: usize,
    messages: Seq<Result<M, ChannelStarvation>>,
) -> bool {
    forall|k: int|
        0 <= k < messages.len() ==> receive.ensures((), handed(#[trigger] messages[k]))
            && messages[k] == delivered(expected, k as usize, handed(messages[k]))
}

/// `joins` holds, producer by producer, what joining that producer can give.
pub open spec fn joined_from<H, O, S: Fn(usize) -> H, J: Fn(H) -> Option<O>>(
    spawn: S,
    join: J,
    joins: Seq<Result<O, JoinFault>>,
) -> bool {
    forall|i: int|
        0 <= i < joins.len() ==> can_yield(spawn, join, i as usize, outcome_of(#[trigger] joins[i]))
            && joins[i] == settled(i as usize, outcome_of(joins[i]))
}

/// The closures can be called wherever a collection from `count`
/// producers calls them.
pub open spec fn collectable<M, H, O, S: Fn(usize) -> H, V: Fn() -> Option<M>, J: Fn(H) -> Option<
    O,
>>(spawn: S, receive: V, join: J, count: usize) -> bool {
    &&& forall|producer: usize| producer < count ==> spawn.requires((producer,))
    &&& count > 0 ==> receive.requires(())
    &&& forall|producer: usize, handle: H|
        producer < count && #[trigger] spawn.ensures((producer,), handle) ==> join.requires(
            (handle,),
        )
}

/// A collection under way: the plan, the producers not yet joined, and
/// what was received and joined so far.
pub struct Collector<M, H, O, S, V, J> {
    spawn: S,
    receive: V,
    join: J,
    plan: Plan,
    /// The producers spawned and not yet joined, oldest first.
    producers: VecDeque<Task<H>>,
    messages: Vec<Result<M, ChannelStarvation>>,
    joins: Vec<Result<O, JoinFault>>,
}

impl<M, H, O, S, V, J> Collector<M, H, O, S, V, J> where
    S: Fn(usize) -> H,
    V: Fn() -> Option<M>,
    J: Fn(H) -> Option<O>,
 {
    /// The plan that the collection has reached.
    pub closed spec fn plan(&self) -> Plan {
        self.plan
    }

    /// The closure that starts a producer.
    pub closed spec fn spawner(&self) -> S {
        self.spawn
    }

    /// The closure that receives a message.
    pub closed spec fn receiver(&self) -> V {
        self.receive
    }

    /// The closure that awaits a producer.
    pub closed spec fn joiner(&self) -> J {
        self.join
    }

    /// What the receives so far brought.
    pub closed spec fn messages(&self) -> Seq<Result<M, ChannelStarvation>> {
        self.messages@
    }

    /// What the producers joined so far gave.
    pub closed spec fn joins(&self) -> Seq<Result<O, JoinFault>> {
        self.joins@
    }

    /// What holds between the actions of a collection.
    pub closed spec fn inv(&self) -> bool {
        let p = self.plan;
        &&& collectable(self.spawn, self.receive, self.join, p.expected)
        &&& p.wf()
        &&& self.producers@.len() == p.spawned - p.joined
        &&& forall|j: int|
            0 <= j < self.producers@.len() ==> (#[trigger] self.producers@[j]).ordinal == p.joined
                + j && self.spawn.ensures(((p.joined + j) as usize,), self.producers@[j].handle)
        &&& self.messages@.len() == p.received
        &&& received_from(self.receive, p.expected, self.messages@)
        &&& self.joins@.len() == p.joined
        &&& joined_from(self.spawn, self.join, self.joins@)
    }

    /// What a collector holds is what its plan counts: one entry per
    /// receive that has returned, one per producer joined, and a handle
    /// for every producer spawned and not yet joined.
    pub proof fn lemma_holds_what_plan_counts(&self)
        requires
            self.inv(),
        ensures
            self.plan().wf(),
            self.messages().len() == self.plan().received,
            self.joins().len() == self.plan().joined,
            received_from(self.receiver(), self.plan().expected, self.messages()),
            joined_from(self.spawner(), self.joiner(), self.joins()),
    {
    }

    /// Sets up a collection from `count` producers without spawning any yet.
    pub fn new(count: usize, spawn: S, receive: V, join: J) -> (c: Self)
        requires
            collectable(spawn, receive, join, count),
        ensures
            c.inv(),
            c.plan() == (Plan { expected: count, spawned: 0, received: 0, joined: 0 }),
            c.spawner() == spawn,
            c.receiver() == receive,
            c.joiner() == join,
            c.messages() == Seq::<Result<M, ChannelStarvation>>::empty(),
            c.joins() == Seq::<Result<O, JoinFault>>::empty(),
    {
        Collector {
            spawn,
            receive,
            join,
            plan: Plan::new(count),
            producers: VecDeque::new(),
            messages: Vec::new(),
            joins: Vec::new(),
        }
    }

    /// Decides the next action.
    pub fn next_action(&self) -> (action: Action)
        requires
            self.inv(),
        ensures
            action == self.plan().next(),
    {
        self.plan.action()
    }

    /// Carries out the action that the plan asks for: spawns one
    /// producer, receives one message, or joins one producer.
    pub fn advance(self) -> (c: Self)
        requires
            self.inv(),
            self.plan().next() != Action::Done,
        ensures
            c.inv(),
            c.plan() == self.plan().after(),
            c.plan().remaining() + 1 == self.plan().remaining(),
            c.spawner() == self.spawner(),
            c.receiver() == self.receiver(),
            c.joiner() == self.joiner(),
            self.plan().next() is Spawn ==> c.messages() == self.messages() && c.joins()
                == self.joins(),
            self.plan().next() is Receive ==> c.joins() == self.joins() && c.messages().drop_last()
                == self.messages() && c.messages().len() == self.messages().len() + 1,
            self.plan().next() is Join ==> c.messages() == self.messages() && c.joins().drop_last()
                == self.joins() && c.joins().len() == self.joins().len() + 1,
    {
        proof {
            lemma_action_preserves(self.plan);
            lemma_phases_in_order(self.plan);
        }
        let ghost before = self.plan;
        let ghost held = self.producers@;
        let ghost old_joins = self.joins@;
        let ghost old_messages = self.messages@;
        let mut producers = self.producers;
        let mut messages = self.messages;
        let mut joins = self.joins;
        let plan = self.plan.advanced();
        match self.plan.action() {
            Action::Spawn { producer } => {
                let task = Task::spawn(producer, &self.spawn);
                producers.push_back(task);
                assert forall|j: int| 0 <= j < producers@.len() implies (#[trigger] producers@[j]).ordinal
                    == plan.joined + j && self.spawn.ensures(
                    ((plan.joined + j) as usize,),
                    producers@[j].handle,
                ) by {
                    if j < held.len() {
                        assert(producers@[j] == held[j]);
                    }
                }
            },
            Action::Receive => {
                let position = messages.len();
                let entry = match (self.receive)() {
                    Some(message) => Ok(message),
                    None => Err(ChannelStarvation { expected: self.plan.expected, position }),
                };
                messages.push(entry);
                assert(messages@.drop_last() =~= old_messages);
                assert forall|k: int| 0 <= k < messages@.len() implies self.receive.ensures(
                    (),
                    handed(#[trigger] messages@[k]),
                ) && messages@[k] == delivered(
                    self.plan.expected,
                    k as usize,
                    handed(messages@[k]),
                ) by {
                    if k < old_messages.len() {
                        assert(messages@[k] == old_messages[k]);
                    }
                }
            },
            Action::Join { producer } => {
                match producers.pop_front() {
                    Some(task) => {
                        assert(task == held[0]);
                        assert(self.spawn.ensures((producer,), task.handle));
                        let result = task.join(&self.join);
                        assert(can_yield(self.spawn, self.join, producer, outcome_of(result)));
                        joins.push(result);
                        assert(joins@.drop_last() =~= old_joins);
                        assert forall|i: int| 0 <= i < joins@.len() implies can_yield(
                            self.spawn,
                            self.join,
                            i as usize,
                            outcome_of(#[trigger] joins@[i]),
                        ) && joins@[i] == settled(i as usize, outcome_of(joins@[i])) by {
                            if i < old_joins.len() {
                                assert(joins@[i] == old_joins[i]);
                            }
                        }
                        assert forall|j: int| 0 <= j < producers@.len() implies (
                        #[trigger] producers@[j]).ordinal == plan.joined + j && self.spawn.ensures(
                            ((plan.joined + j) as usize,),
                            producers@[j].handle,
                        ) by {
                            assert(producers@[j] == held[j + 1]);
                        }
                    },
                    None => {},
                }
            },
            Action::Done => {},
        }
        Collector {
            spawn: self.spawn,
            receive: self.receive,
            join: self.join,
            plan,
            producers,
            messages,
            joins,
        }
    }

    /// Ends a collection that has nothing left to do and hands over
    /// what every receive brought and what every join gave.
    pub fn finish(self) -> (collection: Collection<M, O>)
        requires
            self.inv(),
            self.plan().next() == Action::Done,
        ensures
            collection.messages@ == self.messages(),
            collection.joins@ == self.joins(),
            collection.messages.len() == self.plan().expected,
            collection.joins.len() == self.plan().expected,
            received_from(self.receiver(), self.plan().expected, collection.messages@),
            joined_from(self.spawner(), self.joiner(), collection.joins@),
    {
        proof {
            lemma_phases_in_order(self.plan);
        }
        Collection { messages: self.messages, joins: self.joins }
    }
}

/// Spawns `count` producers, receives exactly `count` times, and then
/// joins every producer, in that order.
///
/// `spawn(producer)` starts a producer, which is to send one message,
/// and gives back a handle; `receive()` waits for the next message and
/// gives it back, or `None` if the channel has run dry; `join(handle)`
/// waits for a producer to end and gives back what it returned, or `None`
/// if it terminated abnormally.
///
/// The collection holds one entry per receive, in the order of receipt,
/// and one entry per producer, in the order of the producers. A receive
/// that found the channel dry, and a producer that faulted, are recorded
/// in their place and stop nothing: every receive is made and every
/// producer is joined.
pub fn collect_from_producers<M, H, O, S, V, J>(count: usize, spawn: S, receive: V, join: J) -> (collection:
    Collection<M, O>) where
    S: Fn(usize) -> H,
    V: Fn() -> Option<M>,
    J: Fn(H) -> Option<O>,

    requires
        collectable(spawn, receive, join, count),
    ensures
        collection.messages.len() == count,
        collection.joins.len() == count,
        received_from(receive, count, collection.messages@),
        joined_from(spawn, join, collection.joins@),
{
    let mut collector = Collector::new(count, spawn, receive, join);
    loop
        invariant
            collector.inv(),
            collector.plan().expected == count,
            collector.spawner() == spawn,
            collector.receiver() == receive,
            collector.joiner() == join,
        ensures
            collector.plan().next() == Action::Done,
        decreases collector.plan().remaining(),
    {
        match collector.next_action() {
            Action::Done => break,
            _ => {
                collector = collector.advance();
            },
        }
    }
    collector.finish()
}

} // verus!
