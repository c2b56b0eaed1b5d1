use call_platform::bridge::{
    BridgeError, BridgeEventKind, BridgeRegistry, BridgeRegistryConfig, BridgeState,
};
use call_platform::call_core::{CallEventKind, CallId, EventId, LegId, LifecycleEvent, StreamId};
use call_platform::runtime::{human_bridge_for_call, synchronize_bridge_lifecycle};

fn event(sequence: u64, call: &CallId, kind: CallEventKind) -> LifecycleEvent {
    LifecycleEvent {
        event_id: EventId::from_sequence(sequence),
        call_id: call.clone(),
        kind,
    }
}

fn registry_with_pending_human() -> (BridgeRegistry, call_platform::call_core::BridgeId, CallId, CallId) {
    let mut registry = BridgeRegistry::new(BridgeRegistryConfig::default()).unwrap();
    let caller = CallId::from_sequence(1);
    let (id, _) = registry
        .create_ai(caller.clone(), LegId::from_sequence(1), StreamId::from_sequence(1))
        .unwrap();
    let human = CallId::from_sequence(2);
    registry
        .begin_human(&id, human.clone(), LegId::from_sequence(2))
        .unwrap();
    (registry, id, caller, human)
}

#[test]
fn finds_the_bridge_of_a_pending_human_leg_but_not_of_the_caller() {
    let (registry, id, caller, human) = registry_with_pending_human();
    assert_eq!(
        human_bridge_for_call(&registry, &human).unwrap(),
        Some((id, BridgeState::ConnectingHuman))
    );
    assert_eq!(human_bridge_for_call(&registry, &caller).unwrap(), None);
    assert_eq!(
        human_bridge_for_call(&registry, &CallId::from_sequence(9)).unwrap(),
        None
    );
}

#[test]
fn answered_human_leg_becomes_the_active_destination() {
    let (mut registry, id, caller, human) = registry_with_pending_human();
    registry.drain_events(16).unwrap();
    synchronize_bridge_lifecycle(
        &mut registry,
        &[
            event(1, &caller, CallEventKind::Answered),
            event(2, &human, CallEventKind::Answered),
        ],
    )
    .unwrap();
    let snapshot = registry.snapshot(&id).unwrap();
    assert_eq!(snapshot.state, BridgeState::HumanActive);
    assert!(snapshot.pending_human.is_none());
    assert_eq!(snapshot.active_human.unwrap().call_id, human);
    let events = registry.drain_events(16).unwrap();
    assert_eq!(events.len(), 1);
    assert_eq!(events[0].kind, BridgeEventKind::HumanConnected);
    assert_eq!(events[0].bridge_id, id);
}

#[test]
fn hung_up_human_leg_falls_back_to_ai() {
    let (mut registry, id, _caller, human) = registry_with_pending_human();
    synchronize_bridge_lifecycle(
        &mut registry,
        &[
            event(1, &human, CallEventKind::Answered),
            event(2, &human, CallEventKind::Ringing),
            event(3, &human, CallEventKind::Hangup),
        ],
    )
    .unwrap();
    let snapshot = registry.snapshot(&id).unwrap();
    assert_eq!(snapshot.state, BridgeState::AiActive);
    assert!(snapshot.active_human.is_none());
    assert!(snapshot.pending_human.is_none());
    assert_eq!(human_bridge_for_call(&registry, &human).unwrap(), None);
}

#[test]
fn failed_connecting_leg_falls_back_and_a_full_queue_stops_the_batch() {
    let mut registry = BridgeRegistry::new(BridgeRegistryConfig {
        max_bridges: 4,
        max_pending_events: 2,
    })
    .unwrap();
    let caller = CallId::from_sequence(1);
    let (id, _) = registry
        .create_ai(caller, LegId::from_sequence(1), StreamId::from_sequence(1))
        .unwrap();
    let human = CallId::from_sequence(2);
    registry
        .begin_human(&id, human.clone(), LegId::from_sequence(2))
        .unwrap();
    assert_eq!(registry.pending_events(), 2);
    assert_eq!(
        synchronize_bridge_lifecycle(&mut registry, &[event(1, &human, CallEventKind::Failed)]),
        Err(BridgeError::EventQueueFull)
    );
    assert_eq!(registry.snapshot(&id).unwrap().state, BridgeState::ConnectingHuman);
    registry.drain_events(2).unwrap();
    synchronize_bridge_lifecycle(&mut registry, &[event(2, &human, CallEventKind::Failed)])
        .unwrap();
    assert_eq!(registry.snapshot(&id).unwrap().state, BridgeState::AiActive);
}
