//! The bookkeeping of the network task: which request waits for which query,
//! and who listens to which topic.
//!
//! The task itself performs what the swarm is asked to do and hands the
//! outcome here; what comes back says what to tell whom. Those who wait are
//! known by the number of their output.

use std::collections::HashMap;
use vstd::prelude::*;
use vstd::std_specs::hash::*;

verus! {

broadcast use vstd::std_specs::hash::group_hash_axioms;

/// Why a request to the network failed.
#[derive(Clone, Copy, Debug, PartialEq, Eq, Structural)]
pub enum NetworkError {
    Dial,
    Send,
    Canceled,
    Serialization,
    Behaviour,
    DhtStore,
    DhtGetRecord,
    DhtPutRecord,
    GossipsubPublish,
}

/// What the network is asked to do. The answer goes to `output`.
#[derive(Debug)]
pub enum NetworkAction {
    Dial { peer_id: u64, output: u64 },
    DialAddress { address: Vec<u8>, output: u64 },
    DhtGet { key: Vec<u8>, output: u64 },
    DhtPut { key: Vec<u8>, value: Vec<u8>, output: u64 },
    Subscribe { topic: u64, output: u64 },
    Publish { topic: u64, data: Vec<u8>, output: u64 },
}

/// What the swarm said when it was asked to do what an action asks for.
#[derive(Clone, Copy, Debug, PartialEq, Eq, Structural)]
pub enum ActionOutcome {
    /// The peer or address was dialed, or could not be.
    Dialed { ok: bool },
    /// The query for a record has the number `query`.
    GetStarted { query: u64 },
    /// The record is being put by the query `query`.
    PutStarted { query: u64 },
    /// The record could not be stored.
    PutRefused,
    /// The topic was subscribed to, unless it was already.
    Subscribed { fresh: bool },
    /// The data was published, or could not be.
    Published { ok: bool },
}

/// What the swarm reports.
#[derive(Debug)]
pub enum SwarmEvent {
    ConnectionEstablished { peer_id: u64 },
    /// A peer joined or left.
    Message { peer_id: u64, joined: bool },
    /// A query for a record ended, with the values of the records found.
    GetRecordResult { query: u64, records: Option<Vec<Vec<u8>>> },
    /// A query that puts a record ended.
    PutRecordResult { query: u64, ok: bool },
    /// A message came in on the topics `topics`.
    GossipMessage { peer_id: u64, topics: Vec<u64> },
    GossipSubscribed { peer_id: u64, topic: u64 },
    GossipUnsubscribed { peer_id: u64, topic: u64 },
    Other,
}

/// What the task is to do next.
#[derive(Debug, PartialEq, Eq)]
pub enum Effect {
    /// Tell the address of the peer to the routing table.
    AddAddress { peer_id: u64 },
    /// Tell all who listen that a peer joined or left.
    Broadcast { peer_id: u64, joined: bool },
    /// Answer a request that gives nothing back.
    Reply { output: u64, result: Result<(), NetworkError> },
    /// Answer a request for a record.
    ReplyRecord { output: u64, result: Result<Option<Vec<u8>>, NetworkError> },
    /// Hand the message that came in to the one who listens to the topic.
    Forward { output: u64, topic: u64 },
    /// A query ended that nobody waits for.
    UnknownQuery { query: u64 },
    /// A message came in on a topic that nobody listens to.
    UnknownTopic { topic: u64 },
    /// The topic was subscribed to already.
    AlreadySubscribed { topic: u64 },
}

/// Who waits for what.
pub struct TaskState {
    /// For each query that puts a record, the output that waits for it.
    pub dht_puts: HashMap<u64, u64>,
    /// For each query for a record, the output that waits for it.
    pub dht_gets: HashMap<u64, u64>,
    /// For each topic, the output that listens to it.
    pub gossip_topics: HashMap<u64, u64>,
}

/// Who waits for what, as a mathematical value.
pub struct TaskView {
    pub dht_puts: Map<u64, u64>,
    pub dht_gets: Map<u64, u64>,
    pub gossip_topics: Map<u64, u64>,
}

impl View for TaskState {
    type V = TaskView;

    open spec fn view(&self) -> TaskView {
        TaskView {
            dht_puts: self.dht_puts@,
            dht_gets: self.dht_gets@,
            gossip_topics: self.gossip_topics@,
        }
    }
}

/// The answer for a dial or a publish that went well or not.
pub open spec fn unit_result(ok: bool, error: NetworkError) -> Result<(), NetworkError> {
    if ok {
        Ok(())
    } else {
        Err(error)
    }
}

/// What an action does, given what the swarm said: the state after it and
/// what the task is to do.
pub open spec fn action_step(pre: TaskView, action: NetworkAction, outcome: ActionOutcome) -> (
    TaskView,
    Option<Effect>,
) {
    match (action, outcome) {
        (NetworkAction::Dial { output, .. }, ActionOutcome::Dialed { ok }) => (
            pre,
            Some(Effect::Reply { output, result: unit_result(ok, NetworkError::Dial) }),
        ),
        (NetworkAction::DialAddress { output, .. }, ActionOutcome::Dialed { ok }) => (
            pre,
            Some(Effect::Reply { output, result: unit_result(ok, NetworkError::Dial) }),
        ),
        (NetworkAction::DhtGet { output, .. }, ActionOutcome::GetStarted { query }) => (
            TaskView { dht_gets: pre.dht_gets.insert(query, output), ..pre },
            None,
        ),
        (NetworkAction::DhtPut { output, .. }, ActionOutcome::PutStarted { query }) => (
            TaskView { dht_puts: pre.dht_puts.insert(query, output), ..pre },
            None,
        ),
        (NetworkAction::DhtPut { output, .. }, ActionOutcome::PutRefused) => (
            pre,
            Some(Effect::Reply { output, result: Err(NetworkError::DhtStore) }),
        ),
        (NetworkAction::Subscribe { topic, output }, ActionOutcome::Subscribed { fresh }) => if fresh {
            (TaskView { gossip_topics: pre.gossip_topics.insert(topic, output), ..pre }, None)
        } else {
            (pre, Some(Effect::AlreadySubscribed { topic }))
        },
        (NetworkAction::Publish { output, .. }, ActionOutcome::Published { ok }) => (
            pre,
            Some(Effect::Reply { output, result: unit_result(ok, NetworkError::GossipsubPublish) }),
        ),
        _ => (pre, None),
    }
}

/// What the task is to do with a message on the topics `topics`: for each
/// topic, in their order, hand it to the one who listens, or say that nobody
/// does.
pub open spec fn gossip_effects(topics_of: Map<u64, u64>, topics: Seq<u64>) -> Seq<Effect> {
    Seq::new(
        topics.len(),
        |i: int|
            if topics_of.contains_key(topics[i]) {
                Effect::Forward { output: topics_of[topics[i]], topic: topics[i] }
            } else {
                Effect::UnknownTopic { topic: topics[i] }
            },
    )
}

/// What an event does: the state after it and what the task is to do.
pub open spec fn event_step(pre: TaskView, event: SwarmEvent) -> (TaskView, Seq<Effect>) {
    match event {
        SwarmEvent::ConnectionEstablished { peer_id } => (
            pre,
            seq![Effect::AddAddress { peer_id }],
        ),
        SwarmEvent::Message { peer_id, joined } => (pre, seq![Effect::Broadcast { peer_id, joined }]),
        SwarmEvent::GetRecordResult { query, records } => if pre.dht_gets.contains_key(query) {
            (
                TaskView { dht_gets: pre.dht_gets.remove(query), ..pre },
                seq![
                    Effect::ReplyRecord {
                        output: pre.dht_gets[query],
                        result: match records {
                            Some(found) => if found@.len() > 0 {
                                Ok(Some(found@.last()))
                            } else {
                                Ok(None)
                            },
                            None => Err(NetworkError::DhtGetRecord),
                        },
                    },
                ],
            )
        } else {
            (pre, seq![Effect::UnknownQuery { query }])
        },
        SwarmEvent::PutRecordResult { query, ok } => if pre.dht_puts.contains_key(query) {
            (
                TaskView { dht_puts: pre.dht_puts.remove(query), ..pre },
                seq![
                    Effect::Reply {
                        output: pre.dht_puts[query],
                        result: unit_result(ok, NetworkError::DhtPutRecord),
                    },
                ],
            )
        } else {
            (pre, seq![Effect::UnknownQuery { query }])
        },
        SwarmEvent::GossipMessage { topics, .. } => (
            pre,
            gossip_effects(pre.gossip_topics, topics@),
        ),
        _ => (pre, Seq::empty()),
    }
}

impl TaskState {
    /// Nobody waits for anything.
    pub fn new() -> (state: TaskState)
        ensures
            state@.dht_puts == Map::<u64, u64>::empty(),
            state@.dht_gets == Map::<u64, u64>::empty(),
            state@.gossip_topics == Map::<u64, u64>::empty(),
    {
        TaskState {
            dht_puts: HashMap::new(),
            dht_gets: HashMap::new(),
            gossip_topics: HashMap::new(),
        }
    }

    /// Takes note of what the swarm said to an action, and says what the
    /// task is to do. A request for a record waits for its query; a request
    /// to put a record waits for its query, or hears that the record was
    /// refused; a subscription is noted when it is new; a dial and a
    /// publication are answered at once.
    pub fn perform_action(&mut self, action: NetworkAction, outcome: ActionOutcome) -> (effect:
        Option<Effect>)
        ensures
            (final(self)@, effect) == action_step(old(self)@, action, outcome),
    {
        match (action, outcome) {
            (NetworkAction::Dial { output, .. }, ActionOutcome::Dialed { ok }) => Some(
                Effect::Reply { output, result: answer(ok, NetworkError::Dial) },
            ),
            (NetworkAction::DialAddress { output, .. }, ActionOutcome::Dialed { ok }) => Some(
                Effect::Reply { output, result: answer(ok, NetworkError::Dial) },
            ),
            (NetworkAction::DhtGet { output, .. }, ActionOutcome::GetStarted { query }) => {
                self.dht_gets.insert(query, output);
                None
            },
            (NetworkAction::DhtPut { output, .. }, ActionOutcome::PutStarted { query }) => {
                // Remember the put operation to resolve it when its result comes.
                self.dht_puts.insert(query, output);
                None
            },
            (NetworkAction::DhtPut { output, .. }, ActionOutcome::PutRefused) => Some(
                Effect::Reply { output, result: Err(NetworkError::DhtStore) },
            ),
            (NetworkAction::Subscribe { topic, output }, ActionOutcome::Subscribed { fresh }) => {
                if fresh {
                    self.gossip_topics.insert(topic, output);
                    None
                } else {
                    Some(Effect::AlreadySubscribed { topic })
                }
            },
            (NetworkAction::Publish { output, .. }, ActionOutcome::Published { ok }) => Some(
                Effect::Reply { output, result: answer(ok, NetworkError::GossipsubPublish) },
            ),
            _ => None,
        }
    }

    /// Takes note of an event of the swarm, and says what the task is to do.
    /// The result of a query goes to the request that waits for it, which
    /// then waits no more; of the records found the last one is given. A
    /// message goes to those who listen to its topics.
    pub fn handle_event(&mut self, event: SwarmEvent) -> (effects: Vec<Effect>)
        ensures
            (final(self)@, effects@) == event_step(old(self)@, event),
    {
        let mut effects: Vec<Effect> = Vec::new();
        match event {
            SwarmEvent::ConnectionEstablished { peer_id } => {
                effects.push(Effect::AddAddress { peer_id });
            },
            SwarmEvent::Message { peer_id, joined } => {
                effects.push(Effect::Broadcast { peer_id, joined });
            },
            SwarmEvent::GetRecordResult { query, records } => {
                match self.dht_gets.remove(&query) {
                    Some(output) => {
                        let result = match records {
                            Some(mut found) => Ok(found.pop()),
                            None => Err(NetworkError::DhtGetRecord),
                        };
                        effects.push(Effect::ReplyRecord { output, result });
                    },
                    None => {
                        effects.push(Effect::UnknownQuery { query });
                    },
                }
            },
            SwarmEvent::PutRecordResult { query, ok } => {
                match self.dht_puts.remove(&query) {
                    Some(output) => {
                        effects.push(
                            Effect::Reply { output, result: answer(ok, NetworkError::DhtPutRecord) },
                        );
                    },
                    None => {
                        effects.push(Effect::UnknownQuery { query });
                    },
                }
            },
            SwarmEvent::GossipMessage { topics, .. } => {
                let mut i: usize = 0;
                while i < topics.len()
                    invariant
                        i <= topics@.len(),
                        *self == *old(self),
                        effects@ == gossip_effects(self@.gossip_topics, topics@).take(i as int),
                    decreases topics@.len() - i,
                {
                    let topic = topics[i];
                    match self.gossip_topics.get(&topic) {
                        Some(output) => {
                            effects.push(Effect::Forward { output: *output, topic });
                        },
                        None => {
                            effects.push(Effect::UnknownTopic { topic });
                        },
                    }
                    assert(effects@ =~= gossip_effects(self@.gossip_topics, topics@).take(i + 1));
                    i = i + 1;
                }
                assert(gossip_effects(self@.gossip_topics, topics@).take(i as int)
                    =~= gossip_effects(self@.gossip_topics, topics@));
            },
            _ => {},
        }
        proof {
            let step = event_step(old(self)@, event);
            assert(self@.dht_gets =~= step.0.dht_gets);
            assert(self@.dht_puts =~= step.0.dht_puts);
            assert(effects@ =~= step.1);
        }
        effects
    }
}

/// The answer for a dial or a publish that went well or not.
pub fn answer(ok: bool, error: NetworkError) -> (result: Result<(), NetworkError>)
    ensures
        result == unit_result(ok, error),
{
    if ok {
        Ok(())
    } else {
        Err(error)
    }
}

/// A request waits for a query until the result of the query comes, and is
/// answered once: after the result was handled, nobody waits for the query.
pub proof fn law_query_is_answered_once(pre: TaskView, query: u64, records: Option<Vec<Vec<u8>>>)
    ensures
        !event_step(pre, SwarmEvent::GetRecordResult { query, records }).0.dht_gets.contains_key(
            query,
        ),
        event_step(
            event_step(pre, SwarmEvent::GetRecordResult { query, records }).0,
            SwarmEvent::GetRecordResult { query, records },
        ).1 == seq![Effect::UnknownQuery { query }],
{
}

} // verus!
