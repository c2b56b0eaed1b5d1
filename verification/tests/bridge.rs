use call_platform::bridge::{
    BridgeError, BridgeEventKind, BridgeOperation, BridgeRegistry, BridgeRegistryConfig,
    BridgeState, HumanLeg,
};
use call_platform::call_core::{BridgeId, CallId, LegId, StreamId};

fn caller(sequence: u64) -> (CallId, LegId, StreamId) {
    (
        CallId::from_sequence(sequence),
        LegId::from_sequence(sequence),
        StreamId::from_sequence(sequence),
    )
}

fn human(sequence: u64) -> (CallId, LegId) {
    (
        CallId::from_sequence(sequence),
        LegId::from_sequence(sequence),
    )
}

#[test]
fn switches_ai_to_human_and_back_without_replacing_the_caller() {
    let mut registry = BridgeRegistry::new(BridgeRegistryConfig::default()).unwrap();
    let (caller_call, caller_leg, stream) = caller(1);
    let (id, created) = registry
        .create_ai(caller_call.clone(), caller_leg.clone(), stream.clone())
        .unwrap();
    let (human_call, human_leg) = human(2);

    assert_eq!(created.kind, BridgeEventKind::Created);
    registry
        .begin_human(&id, human_call.clone(), human_leg.clone())
        .unwrap();
    let connecting = registry.snapshot(&id).unwrap();
    assert_eq!(connecting.state, BridgeState::ConnectingHuman);
    assert_eq!(connecting.caller_call_id, caller_call);
    assert_eq!(connecting.ai_stream_id, stream);
    assert_eq!(
        connecting.pending_human,
        Some(HumanLeg {
            call_id: human_call.clone(),
            leg_id: human_leg.clone(),
        })
    );

    registry.complete_human(&id).unwrap();
    let active = registry.snapshot(&id).unwrap();
    assert_eq!(active.state, BridgeState::HumanActive);
    assert!(active.pending_human.is_none());
    assert_eq!(
        active.active_human,
        Some(HumanLeg {
            call_id: human_call,
            leg_id: human_leg,
        })
    );

    registry.resume_ai(&id).unwrap();
    let resumed = registry.snapshot(&id).unwrap();
    assert_eq!(resumed.state, BridgeState::AiActive);
    assert_eq!(resumed.caller_leg_id, caller_leg);
    assert!(resumed.active_human.is_none());
    assert_eq!(
        registry
            .drain_events(8)
            .unwrap()
            .into_iter()
            .map(|event| event.kind)
            .collect::<Vec<_>>(),
        vec![
            BridgeEventKind::Created,
            BridgeEventKind::HumanConnecting,
            BridgeEventKind::HumanConnected,
            BridgeEventKind::AiResumed,
        ]
    );
}

#[test]
fn partial_and_active_human_failures_restore_ai_and_release_endpoints() {
    let mut registry = BridgeRegistry::new(BridgeRegistryConfig::default()).unwrap();
    let (caller_call, caller_leg, stream) = caller(1);
    let (id, _) = registry.create_ai(caller_call, caller_leg, stream).unwrap();
    let (human_call, human_leg) = human(2);

    registry
        .begin_human(&id, human_call.clone(), human_leg.clone())
        .unwrap();
    assert_eq!(
        registry.fail_human(&id).unwrap().kind,
        BridgeEventKind::HumanFailed
    );
    assert_eq!(registry.snapshot(&id).unwrap().state, BridgeState::AiActive);

    registry
        .begin_human(&id, human_call.clone(), human_leg.clone())
        .unwrap();
    registry.complete_human(&id).unwrap();
    registry.fail_human(&id).unwrap();
    let failed = registry.snapshot(&id).unwrap();
    assert_eq!(failed.state, BridgeState::AiActive);
    assert!(failed.active_human.is_none());

    registry.begin_human(&id, human_call, human_leg).unwrap();
}

#[test]
fn event_backpressure_and_invalid_transitions_are_atomic() {
    let mut registry = BridgeRegistry::new(BridgeRegistryConfig {
        max_bridges: 2,
        max_pending_events: 1,
    })
    .unwrap();
    let (caller_call, caller_leg, stream) = caller(1);
    let (id, _) = registry.create_ai(caller_call, caller_leg, stream).unwrap();
    let before = registry.snapshot(&id).unwrap();
    let (human_call, human_leg) = human(2);

    assert_eq!(
        registry.begin_human(&id, human_call.clone(), human_leg.clone()),
        Err(BridgeError::EventQueueFull)
    );
    assert_eq!(registry.snapshot(&id).unwrap(), before);
    registry.drain_events(1).unwrap();
    assert_eq!(
        registry.complete_human(&id),
        Err(BridgeError::InvalidOperation {
            state: BridgeState::AiActive,
            operation: BridgeOperation::CompleteHuman,
        })
    );
    assert_eq!(registry.snapshot(&id).unwrap(), before);
    registry.begin_human(&id, human_call, human_leg).unwrap();
}

#[test]
fn terminal_cleanup_releases_every_endpoint_and_registry_capacity() {
    let mut registry = BridgeRegistry::new(BridgeRegistryConfig {
        max_bridges: 1,
        max_pending_events: 8,
    })
    .unwrap();
    let (caller_call, caller_leg, stream) = caller(1);
    let (id, _) = registry
        .create_ai(caller_call.clone(), caller_leg.clone(), stream.clone())
        .unwrap();
    let (human_call, human_leg) = human(2);
    registry.begin_human(&id, human_call, human_leg).unwrap();

    registry.end(&id).unwrap();
    let ended = registry.snapshot(&id).unwrap();
    assert_eq!(ended.state, BridgeState::Ended);
    assert!(ended.pending_human.is_none());
    assert!(ended.active_human.is_none());
    assert_eq!(
        registry.create_ai(caller_call.clone(), caller_leg.clone(), stream.clone()),
        Err(BridgeError::BridgeLimitReached)
    );
    assert_eq!(registry.remove_terminal(&id).unwrap(), ended);

    let (next, _) = registry.create_ai(caller_call, caller_leg, stream).unwrap();
    assert_eq!(next, BridgeId::from_sequence(2));
}

#[test]
fn validates_bounds_ownership_and_api_limits() {
    assert!(matches!(
        BridgeRegistry::new(BridgeRegistryConfig {
            max_bridges: 0,
            max_pending_events: 1,
        }),
        Err(BridgeError::InvalidConfig)
    ));
    let mut registry = BridgeRegistry::new(BridgeRegistryConfig::default()).unwrap();
    assert_eq!(registry.config(), BridgeRegistryConfig::default());
    let (caller_call, caller_leg, stream) = caller(1);
    let (id, _) = registry
        .create_ai(caller_call.clone(), caller_leg.clone(), stream.clone())
        .unwrap();

    assert_eq!(
        registry.create_ai(
            caller_call,
            LegId::from_sequence(9),
            StreamId::from_sequence(9)
        ),
        Err(BridgeError::EndpointInUse)
    );
    assert_eq!(
        registry.create_ai(
            CallId::from_sequence(9),
            caller_leg,
            StreamId::from_sequence(9)
        ),
        Err(BridgeError::EndpointInUse)
    );
    assert_eq!(
        registry.create_ai(CallId::from_sequence(9), LegId::from_sequence(9), stream),
        Err(BridgeError::EndpointInUse)
    );
    assert_eq!(registry.list(0), Err(BridgeError::InvalidLimit));
    assert_eq!(registry.drain_events(0), Err(BridgeError::InvalidLimit));
    assert_eq!(
        registry.remove_terminal(&id),
        Err(BridgeError::InvalidOperation {
            state: BridgeState::AiActive,
            operation: BridgeOperation::Reclaim,
        })
    );
    assert_eq!(registry.snapshot(&id).unwrap().state, BridgeState::AiActive);
}

#[test]
fn listing_is_ordered_by_identifier_text_and_bounded() {
    let mut registry = BridgeRegistry::new(BridgeRegistryConfig::default()).unwrap();
    let mut ids = Vec::new();
    for sequence in 1..=11 {
        let (call, leg, stream) = caller(sequence);
        ids.push(registry.create_ai(call, leg, stream).unwrap().0);
    }
    let listed = registry.list(3).unwrap();
    let names: Vec<&str> = listed.iter().map(|snapshot| snapshot.id.as_str()).collect();
    assert_eq!(names, vec!["bridge_1", "bridge_10", "bridge_11"]);
    assert_eq!(registry.list(100).unwrap().len(), 11);
    assert_eq!(registry.pending_events(), 11);
    assert_eq!(registry.drain_events(4).unwrap().len(), 4);
    assert_eq!(registry.pending_events(), 7);
}

#[test]
fn unknown_bridges_and_human_endpoint_reuse_are_rejected() {
    let mut registry = BridgeRegistry::new(BridgeRegistryConfig::default()).unwrap();
    let unknown = BridgeId::from_sequence(77);
    assert_eq!(registry.snapshot(&unknown), Err(BridgeError::UnknownBridge));
    assert_eq!(registry.end(&unknown), Err(BridgeError::UnknownBridge));
    let (call, leg, stream) = caller(1);
    let (id, _) = registry.create_ai(call.clone(), leg, stream).unwrap();
    assert_eq!(
        registry.begin_human(&id, call, LegId::from_sequence(5)),
        Err(BridgeError::EndpointInUse)
    );
    assert_eq!(
        registry.resume_ai(&id),
        Err(BridgeError::InvalidOperation {
            state: BridgeState::AiActive,
            operation: BridgeOperation::ResumeAi,
        })
    );
    assert_eq!(registry.end(&id).unwrap().kind, BridgeEventKind::Ended);
    assert_eq!(
        registry.end(&id),
        Err(BridgeError::InvalidOperation {
            state: BridgeState::Ended,
            operation: BridgeOperation::End,
        })
    );
}

#[test]
fn created_bridges_are_found_among_earlier_ones() {
    let mut registry = BridgeRegistry::new(BridgeRegistryConfig::default()).unwrap();
    let mut ids = Vec::new();
    for sequence in 1..=3u64 {
        let (call, leg, stream) = caller(sequence * 10);
        let (id, event) = registry
            .create_ai(call.clone(), leg.clone(), stream.clone())
            .unwrap();
        assert_eq!(event.bridge_id, id);
        let found = registry.snapshot(&id).unwrap();
        assert_eq!(found.id, id);
        assert_eq!(found.caller_call_id, call);
        assert_eq!(found.caller_leg_id, leg);
        assert_eq!(found.ai_stream_id, stream);
        assert_eq!(found.state, BridgeState::AiActive);
        assert_eq!(found.active_human, None);
        assert_eq!(found.pending_human, None);
        ids.push(id);
    }
    for id in &ids {
        assert_eq!(registry.snapshot(id).unwrap().state, BridgeState::AiActive);
    }
}
