use albatross_chain::network::{
    answer, ActionOutcome, Effect, NetworkAction, NetworkError, SwarmEvent, TaskState,
};

#[test]
fn dial_and_publish_are_answered_at_once() {
    let mut state = TaskState::new();
    assert_eq!(
        state.perform_action(
            NetworkAction::Dial { peer_id: 4, output: 1 },
            ActionOutcome::Dialed { ok: true }
        ),
        Some(Effect::Reply { output: 1, result: Ok(()) })
    );
    assert_eq!(
        state.perform_action(
            NetworkAction::DialAddress { address: vec![1, 2], output: 2 },
            ActionOutcome::Dialed { ok: false }
        ),
        Some(Effect::Reply { output: 2, result: Err(NetworkError::Dial) })
    );
    assert_eq!(
        state.perform_action(
            NetworkAction::Publish { topic: 9, data: vec![1], output: 3 },
            ActionOutcome::Published { ok: false }
        ),
        Some(Effect::Reply { output: 3, result: Err(NetworkError::GossipsubPublish) })
    );
    assert_eq!(
        state.perform_action(
            NetworkAction::Publish { topic: 9, data: vec![1], output: 3 },
            ActionOutcome::Published { ok: true }
        ),
        Some(Effect::Reply { output: 3, result: Ok(()) })
    );
    assert!(state.dht_gets.is_empty() && state.dht_puts.is_empty());
    assert_eq!(answer(true, NetworkError::Send), Ok(()));
    assert_eq!(answer(false, NetworkError::Send), Err(NetworkError::Send));
}

#[test]
fn record_query_is_answered_when_its_result_comes() {
    let mut state = TaskState::new();
    assert_eq!(
        state.perform_action(
            NetworkAction::DhtGet { key: b"foo".to_vec(), output: 7 },
            ActionOutcome::GetStarted { query: 42 }
        ),
        None
    );
    assert_eq!(state.dht_gets.get(&42), Some(&7));
    // of several records the last one is given
    let found = Some(vec![vec![1], vec![2, 3]]);
    assert_eq!(
        state.handle_event(SwarmEvent::GetRecordResult { query: 42, records: found.clone() }),
        vec![Effect::ReplyRecord { output: 7, result: Ok(Some(vec![2, 3])) }]
    );
    assert!(state.dht_gets.is_empty());
    assert_eq!(
        state.handle_event(SwarmEvent::GetRecordResult { query: 42, records: found }),
        vec![Effect::UnknownQuery { query: 42 }]
    );
}

#[test]
fn record_query_without_records_or_with_an_error() {
    let mut state = TaskState::new();
    state.perform_action(
        NetworkAction::DhtGet { key: vec![], output: 1 },
        ActionOutcome::GetStarted { query: 1 },
    );
    state.perform_action(
        NetworkAction::DhtGet { key: vec![], output: 2 },
        ActionOutcome::GetStarted { query: 2 },
    );
    assert_eq!(
        state.handle_event(SwarmEvent::GetRecordResult { query: 1, records: Some(vec![]) }),
        vec![Effect::ReplyRecord { output: 1, result: Ok(None) }]
    );
    assert_eq!(
        state.handle_event(SwarmEvent::GetRecordResult { query: 2, records: None }),
        vec![Effect::ReplyRecord { output: 2, result: Err(NetworkError::DhtGetRecord) }]
    );
}

#[test]
fn put_waits_for_its_query_or_is_refused() {
    let mut state = TaskState::new();
    let put = || NetworkAction::DhtPut { key: vec![1], value: vec![2], output: 5 };
    assert_eq!(
        state.perform_action(put(), ActionOutcome::PutRefused),
        Some(Effect::Reply { output: 5, result: Err(NetworkError::DhtStore) })
    );
    assert!(state.dht_puts.is_empty());
    assert_eq!(state.perform_action(put(), ActionOutcome::PutStarted { query: 3 }), None);
    assert_eq!(
        state.handle_event(SwarmEvent::PutRecordResult { query: 4, ok: true }),
        vec![Effect::UnknownQuery { query: 4 }]
    );
    assert_eq!(
        state.handle_event(SwarmEvent::PutRecordResult { query: 3, ok: false }),
        vec![Effect::Reply { output: 5, result: Err(NetworkError::DhtPutRecord) }]
    );
    assert!(state.dht_puts.is_empty());
    assert_eq!(state.perform_action(put(), ActionOutcome::PutStarted { query: 6 }), None);
    assert_eq!(
        state.handle_event(SwarmEvent::PutRecordResult { query: 6, ok: true }),
        vec![Effect::Reply { output: 5, result: Ok(()) }]
    );
}

#[test]
fn gossip_goes_to_those_who_listen() {
    let mut state = TaskState::new();
    let subscribe = |topic, output| NetworkAction::Subscribe { topic, output };
    assert_eq!(
        state.perform_action(subscribe(10, 1), ActionOutcome::Subscribed { fresh: true }),
        None
    );
    assert_eq!(
        state.perform_action(subscribe(10, 2), ActionOutcome::Subscribed { fresh: false }),
        Some(Effect::AlreadySubscribed { topic: 10 })
    );
    assert_eq!(
        state.perform_action(subscribe(11, 3), ActionOutcome::Subscribed { fresh: true }),
        None
    );
    assert_eq!(
        state.handle_event(SwarmEvent::GossipMessage { peer_id: 8, topics: vec![11, 12, 10] }),
        vec![
            Effect::Forward { output: 3, topic: 11 },
            Effect::UnknownTopic { topic: 12 },
            Effect::Forward { output: 1, topic: 10 },
        ]
    );
    assert_eq!(state.gossip_topics.len(), 2);
}

#[test]
fn other_events_and_mismatched_outcomes_change_nothing() {
    let mut state = TaskState::new();
    assert_eq!(
        state.handle_event(SwarmEvent::ConnectionEstablished { peer_id: 3 }),
        vec![Effect::AddAddress { peer_id: 3 }]
    );
    assert_eq!(
        state.handle_event(SwarmEvent::Message { peer_id: 3, joined: true }),
        vec![Effect::Broadcast { peer_id: 3, joined: true }]
    );
    assert!(state.handle_event(SwarmEvent::GossipSubscribed { peer_id: 1, topic: 2 }).is_empty());
    assert!(state.handle_event(SwarmEvent::GossipUnsubscribed { peer_id: 1, topic: 2 }).is_empty());
    assert!(state.handle_event(SwarmEvent::Other).is_empty());
    assert_eq!(
        state.perform_action(
            NetworkAction::Dial { peer_id: 1, output: 1 },
            ActionOutcome::GetStarted { query: 1 }
        ),
        None
    );
    assert!(state.dht_gets.is_empty());
}
