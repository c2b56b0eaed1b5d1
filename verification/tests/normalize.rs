use call_platform::bridge::{BridgeEvent, BridgeEventKind, BridgeRegistry, BridgeRegistryConfig};
use call_platform::call_api::{CallRegistry, CallRegistryConfig, DialogId};
use call_platform::call_core::{
    BridgeId, CallEventKind, CallId, EventId, LegId, LifecycleEvent, StreamId,
};
use call_platform::differential::{DifferentialError, NormalizationConfig};
use call_platform::negotiation::{Direction, MediaSection, NegotiatedAudio, SdpCodec};
use call_platform::media::QueueStats;
use call_platform::normalize::{
    cleanup_text, media_text, normalize_negotiated, AliasMap, MediaCounters, Normalizer,
};

fn pcmu(payload_type: u8, name: &str) -> SdpCodec {
    SdpCodec {
        payload_type,
        name: name.to_owned(),
        clock_rate: 8000,
        channels: 1,
        fmtp: None,
        telephone_event: false,
    }
}

#[test]
fn aliases_number_identifiers_in_first_seen_order() {
    let mut aliases = AliasMap::new();
    assert_eq!(aliases.alias("fixture-diff-call"), 1);
    assert_eq!(aliases.alias("other-call"), 2);
    assert_eq!(aliases.alias("fixture-diff-call"), 1);
    assert_eq!(aliases.alias("third"), 3);
    assert_eq!(aliases.alias("other-call"), 2);
}

#[test]
fn negotiated_media_is_spelled_without_addresses() {
    assert_eq!(normalize_negotiated(&None), "codec=none");
    let media = NegotiatedAudio {
        local_codec: pcmu(0, "PCMU"),
        remote_codec: SdpCodec { fmtp: Some("0-15".to_owned()), ..pcmu(96, "pcmu") },
        direction: Direction::RecvOnly,
        remote_connection: Some("IN IP4 192.0.2.10".to_owned()),
        remote_port: 4000,
    };
    assert_eq!(
        normalize_negotiated(&Some(media)),
        "codec=PCMU/8000/1:fmtp=false->PCMU/8000/1:fmtp=true direction=recvonly remote-address=true remote-port=true"
    );
}

#[test]
fn call_and_bridge_facts_use_aliases_and_respect_bounds() {
    let mut calls = CallRegistry::new(CallRegistryConfig::default()).unwrap();
    let id = calls.create().unwrap();
    calls
        .bind_dialog(&id, DialogId::new("fixture-diff-call", "rust-1", "remote"))
        .unwrap();
    let local = vec![MediaSection {
        media: "audio".to_owned(),
        port: 5000,
        formats: vec![0],
        codecs: vec![pcmu(0, "PCMU")],
        connection: None,
    }];
    let remote = vec![MediaSection {
        media: "audio".to_owned(),
        port: 4000,
        formats: vec![0],
        codecs: vec![pcmu(0, "PCMU")],
        connection: None,
    }];
    calls
        .negotiate_audio(&id, &local, &remote, &None, Direction::SendRecv)
        .unwrap();
    let snapshot = calls.snapshot(&id).unwrap();

    let mut bridges = BridgeRegistry::new(BridgeRegistryConfig::default()).unwrap();
    let (bridge_id, _) = bridges
        .create_ai(
            CallId::from_sequence(7),
            LegId::from_sequence(7),
            StreamId::from_sequence(7),
        )
        .unwrap();
    let bridge = bridges.snapshot(&bridge_id).unwrap();

    let mut normalizer = Normalizer::new(NormalizationConfig { max_facts: 3, max_fact_bytes: 512 });
    normalizer.add_call(&snapshot, "retained").unwrap();
    normalizer.add_bridge(&bridge, "retained").unwrap();
    normalizer.add_call(&snapshot, "reclaimed").unwrap();
    assert_eq!(
        normalizer.facts(),
        [
            "call call-1 retained created dialog=true codec=PCMU/8000/1:fmtp=false->PCMU/8000/1:fmtp=false direction=sendrecv remote-address=false remote-port=true".to_owned(),
            "bridge bridge-1 retained ai-active caller=call-2 pending-human=false active-human=false".to_owned(),
            "call call-1 reclaimed created dialog=true codec=PCMU/8000/1:fmtp=false->PCMU/8000/1:fmtp=false direction=sendrecv remote-address=false remote-port=true".to_owned(),
        ]
    );
    assert_eq!(
        normalizer.push("media none".to_owned()),
        Err(DifferentialError::TooManyFacts { actual: 4, maximum: 3 })
    );

    let mut tight = Normalizer::new(NormalizationConfig { max_facts: 3, max_fact_bytes: 8 });
    assert_eq!(tight.push("media none".to_owned()), Err(DifferentialError::FactTooLong {
        index: 0,
        actual: 10,
        maximum: 8,
    }));
    assert_eq!(tight.push("timing".to_owned()), Ok(()));
    assert_eq!(tight.facts(), ["timing".to_owned()]);
}

fn queue(depth: usize, pushed: u64, dropped_oldest: u64, dropped_newest: u64) -> QueueStats {
    QueueStats { depth, capacity: 8, pushed, dropped_oldest, dropped_newest }
}

fn counters() -> MediaCounters {
    MediaCounters {
        rtp_sent: 2,
        rtp_received: 3,
        rtp_lost: 1,
        rtp_invalid: 0,
        rtp_ssrc_changes: 0,
        rtcp_sent: 1,
        rtcp_received: 1,
        rtcp_lost: 0,
        rtcp_invalid: 0,
        rtcp_ssrc_changes: 0,
        audio_in: 3,
        audio_out: 2,
        dtmf_events: 2,
        dtmf_dropped: 0,
        pending_dtmf: 1,
        to_ai: queue(0, 3, 1, 0),
        from_ai: queue(2, 4, u64::MAX, 5),
    }
}

#[test]
fn media_and_cleanup_facts_spell_every_counter() {
    assert_eq!(
        media_text(&counters()),
        format!(
            "media rtp-sent=2 rtp-received=3 rtp-lost=1 rtp-invalid=0 rtp-ssrc-changes=0 rtcp-sent=1 rtcp-received=1 rtcp-lost=0 rtcp-invalid=0 rtcp-ssrc-changes=0 audio-in=3 audio-out=2 dtmf-events=2 dtmf-dropped=0 to-ai-pushed=3 to-ai-dropped=1 from-ai-pushed=4 from-ai-dropped={}",
            u64::MAX
        )
    );
    assert_eq!(
        cleanup_text(0, 0, 0, &None),
        "cleanup calls=0 bridges=0 transactions=0 to-ai=na from-ai=na dtmf=na"
    );
    assert_eq!(
        cleanup_text(1, 2, 3, &Some(counters())),
        "cleanup calls=1 bridges=2 transactions=3 to-ai=0 from-ai=2 dtmf=1"
    );
    let mut normalizer = Normalizer::new(NormalizationConfig::default());
    normalizer.add_media(&None).unwrap();
    normalizer.add_cleanup(0, 0, 0, &None).unwrap();
    assert_eq!(
        normalizer.facts(),
        [
            "media none".to_owned(),
            "cleanup calls=0 bridges=0 transactions=0 to-ai=na from-ai=na dtmf=na".to_owned(),
        ]
    );
}

fn call_event(sequence: u64, call: u64, kind: CallEventKind) -> LifecycleEvent {
    LifecycleEvent {
        event_id: EventId::from_sequence(sequence),
        call_id: CallId::from_sequence(call),
        kind,
    }
}

#[test]
fn events_are_numbered_and_aliased_in_order() {
    let mut normalizer = Normalizer::new(NormalizationConfig::default());
    normalizer
        .add_events(&[
            call_event(1, 40, CallEventKind::Created),
            call_event(2, 41, CallEventKind::Created),
            call_event(3, 40, CallEventKind::Answered),
        ])
        .unwrap();
    normalizer
        .add_bridge_events(&[BridgeEvent {
            event_id: EventId::from_sequence(4),
            bridge_id: BridgeId::from_sequence(9),
            kind: BridgeEventKind::HumanConnected,
        }])
        .unwrap();
    assert_eq!(
        normalizer.facts(),
        [
            "event 1 call-1 created".to_owned(),
            "event 2 call-2 created".to_owned(),
            "event 3 call-1 answered".to_owned(),
            "bridge-event 1 bridge-1 human-connected".to_owned(),
        ]
    );

    let mut bounded = Normalizer::new(NormalizationConfig { max_facts: 1, max_fact_bytes: 64 });
    assert_eq!(
        bounded.add_events(&[
            call_event(1, 40, CallEventKind::Created),
            call_event(2, 40, CallEventKind::Ended),
        ]),
        Err(DifferentialError::TooManyFacts { actual: 2, maximum: 1 })
    );
    assert_eq!(bounded.facts(), ["event 1 call-1 created".to_owned()]);
}
