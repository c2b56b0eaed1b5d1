use call_platform::bridge::{BridgeError, BridgeRegistry, BridgeRegistryConfig, BridgeState};
use call_platform::call_core::{BridgeId, CallId, LegId, StreamId};
use call_platform::relay::{
    timestamp_is_newer, DtmfRelayClock, HumanMediaBridgeError, HumanMediaBridgeRuntime,
};

fn active_bridge() -> (BridgeRegistry, BridgeId) {
    let mut bridges = BridgeRegistry::new(BridgeRegistryConfig::default()).unwrap();
    let (bridge_id, _) = bridges
        .create_ai(
            CallId::from_sequence(1),
            LegId::from_sequence(1),
            StreamId::from_sequence(1),
        )
        .unwrap();
    bridges
        .begin_human(
            &bridge_id,
            CallId::from_sequence(2),
            LegId::from_sequence(2),
        )
        .unwrap();
    bridges.complete_human(&bridge_id).unwrap();
    (bridges, bridge_id)
}

#[test]
fn dtmf_clock_maps_source_timestamp_rollover_monotonically() {
    let mut clock = DtmfRelayClock::default();
    assert_eq!(clock.map_packet(u32::MAX - 79, 80, 1_000), 1_000);
    assert_eq!(clock.map_packet(80, 160, 1_000), 1_160);
    let latest = clock.latest().unwrap();
    assert_eq!(latest.source_timestamp, 80);
    assert_eq!(latest.destination_timestamp, 1_160);
    assert_eq!(latest.maximum_duration, 160);
}

#[test]
fn rejects_non_active_snapshot_at_construction() {
    let mut bridges = BridgeRegistry::new(BridgeRegistryConfig::default()).unwrap();
    let (bridge_id, _) = bridges
        .create_ai(
            CallId::from_sequence(1),
            LegId::from_sequence(1),
            StreamId::from_sequence(1),
        )
        .unwrap();
    bridges
        .begin_human(
            &bridge_id,
            CallId::from_sequence(2),
            LegId::from_sequence(2),
        )
        .unwrap();
    assert!(matches!(
        HumanMediaBridgeRuntime::new(&bridges.snapshot(&bridge_id).unwrap()),
        Err(HumanMediaBridgeError::NotHumanActive {
            state: BridgeState::ConnectingHuman
        })
    ));
}

#[test]
fn ai_failback_and_endpoint_replacement_close_the_gate() {
    let (mut bridges, bridge_id) = active_bridge();
    let pair = HumanMediaBridgeRuntime::new(&bridges.snapshot(&bridge_id).unwrap()).unwrap();
    assert_eq!(pair.bridge_id(), &bridge_id);
    assert_eq!(pair.validate(&bridges), Ok(()));

    bridges.fail_human(&bridge_id).unwrap();
    assert_eq!(
        pair.validate(&bridges),
        Err(HumanMediaBridgeError::NotHumanActive {
            state: BridgeState::AiActive
        })
    );

    bridges
        .begin_human(
            &bridge_id,
            CallId::from_sequence(3),
            LegId::from_sequence(3),
        )
        .unwrap();
    bridges.complete_human(&bridge_id).unwrap();
    assert_eq!(
        pair.validate(&bridges),
        Err(HumanMediaBridgeError::EndpointMismatch)
    );

    bridges.end(&bridge_id).unwrap();
    bridges.remove_terminal(&bridge_id).unwrap();
    assert_eq!(
        pair.validate(&bridges),
        Err(HumanMediaBridgeError::Bridge(BridgeError::UnknownBridge))
    );
}

#[test]
fn retransmitted_events_keep_their_timestamp_and_audio_resumes_after_the_event() {
    let (bridges, bridge_id) = active_bridge();
    let mut pair = HumanMediaBridgeRuntime::new(&bridges.snapshot(&bridge_id).unwrap()).unwrap();
    assert_eq!(pair.map_caller_dtmf(100, 80, 5_000), 5_000);
    assert_eq!(pair.map_caller_dtmf(100, 160, 9_999), 5_000);
    assert_eq!(pair.map_caller_dtmf(100, 120, 9_999), 5_000);
    assert_eq!(pair.map_human_dtmf(7, 80, 40), 40);

    let mut clock = DtmfRelayClock::default();
    assert_eq!(clock.synchronize_before_audio(0), None);
    clock.map_packet(100, 80, 5_000);
    clock.map_packet(100, 320, 5_000);
    assert_eq!(clock.latest().unwrap().maximum_duration, 320);
    assert_eq!(clock.timestamp_offset(), Some(4_900));
    // Audio mapped before the end of the event resumes at the event's end.
    assert_eq!(clock.synchronize_before_audio(200), Some(5_320));
    assert!(clock.latest().unwrap().audio_clock_synchronized);
    assert_eq!(clock.synchronize_before_audio(10_000), None);
    // A late end packet for a synchronized event no longer stretches it.
    clock.map_packet(100, 400, 5_000);
    assert_eq!(clock.latest().unwrap().maximum_duration, 320);

    let mut later = DtmfRelayClock::default();
    later.map_packet(100, 80, 5_000);
    assert_eq!(later.synchronize_before_audio(1_000), Some(5_900));
}

#[test]
fn timestamp_order_wraps_around() {
    assert!(timestamp_is_newer(1, 0));
    assert!(timestamp_is_newer(0, u32::MAX));
    assert!(!timestamp_is_newer(5, 5));
    assert!(!timestamp_is_newer(0, 1));
    assert!(!timestamp_is_newer(0x8000_0000, 0));
    assert!(timestamp_is_newer(0x7fff_ffff, 0));
}
