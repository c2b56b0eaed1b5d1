use call_platform::media::{
    alaw_to_linear, decode, encode, linear_to_alaw, linear_to_ulaw, ulaw_to_linear, AudioBridge,
    AudioCodec, AudioFrame, BoundedMediaQueue, DropPolicy, MediaBridgeConfig, PushOutcome,
    QueueError,
};

#[test]
fn queue_enforces_capacity_and_reports_policy() {
    let mut queue = BoundedMediaQueue::new(2, DropPolicy::DropOldest).unwrap();
    assert_eq!(queue.push(1), PushOutcome::Accepted);
    assert_eq!(queue.push(2), PushOutcome::Accepted);
    assert_eq!(queue.push(3), PushOutcome::DroppedOldest);
    assert_eq!(queue.pop(), Some(2));
    assert_eq!(queue.stats().dropped_oldest, 1);
    assert!(BoundedMediaQueue::<u8>::new(0, DropPolicy::DropNewest).is_err());
}

#[test]
fn audio_bridge_is_bidirectional_and_bounded() {
    let frame = |timestamp| AudioFrame {
        timestamp,
        codec: AudioCodec::Pcmu,
        sample_rate: 8_000,
        samples: vec![0; 160],
    };
    let mut bridge = AudioBridge::new(MediaBridgeConfig {
        to_ai_capacity: 1,
        from_ai_capacity: 1,
        ..MediaBridgeConfig::default()
    })
    .unwrap();
    assert_eq!(bridge.push_to_ai(frame(1)), PushOutcome::Accepted);
    assert_eq!(bridge.push_to_ai(frame(2)), PushOutcome::DroppedOldest);
    assert_eq!(bridge.pop_for_ai().unwrap().timestamp, 2);
    assert_eq!(bridge.push_from_ai(frame(3)), PushOutcome::Accepted);
    assert_eq!(bridge.pop_for_rtp().unwrap().timestamp, 3);
    assert_eq!(bridge.stats().to_ai.dropped_oldest, 1);
    assert_eq!(bridge.stats().from_ai.depth, 0);
}

#[test]
fn g711_silence_and_signal_round_trip_with_bounded_error() {
    assert_eq!(linear_to_ulaw(0), 0xff);
    assert_eq!(linear_to_alaw(0), 0xd5);
    assert_eq!(linear_to_ulaw(1_000), 0xce);
    assert_eq!(linear_to_ulaw(-1_000), 0x4e);
    assert_eq!(linear_to_ulaw(30_000), 0x82);
    assert_eq!(linear_to_ulaw(-30_000), 0x02);
    assert_eq!(linear_to_alaw(1_000), 0xfa);
    assert_eq!(linear_to_alaw(-1_000), 0x7a);
    for sample in [-30_000, -1_000, 0, 1_000, 30_000] {
        let ulaw = ulaw_to_linear(linear_to_ulaw(sample));
        let alaw = alaw_to_linear(linear_to_alaw(sample));
        assert!((i32::from(ulaw) - i32::from(sample)).abs() < 2_500);
        assert!((i32::from(alaw) - i32::from(sample)).abs() < 2_500);
    }
}

#[test]
fn drop_newest_keeps_the_queue_and_counts_the_rejection() {
    let mut queue = BoundedMediaQueue::new(1, DropPolicy::DropNewest).unwrap();
    assert_eq!(queue.push(7), PushOutcome::Accepted);
    assert_eq!(queue.push(8), PushOutcome::DroppedNewest);
    assert_eq!(queue.front(), Some(&7));
    assert_eq!(queue.iter(), vec![&7]);
    assert_eq!(queue.len(), 1);
    assert_eq!(queue.capacity(), 1);
    let stats = queue.stats();
    assert_eq!((stats.pushed, stats.dropped_newest, stats.dropped_oldest), (2, 1, 0));
    assert_eq!(queue.clear(), 1);
    assert!(queue.is_empty());
    assert_eq!(queue.pop(), None);
    assert_eq!(queue.stats().pushed, 2);
    assert_eq!(
        BoundedMediaQueue::<u8>::new(0, DropPolicy::DropOldest).err(),
        Some(QueueError::ZeroCapacity)
    );
}

#[test]
fn bridge_peeks_without_consuming_and_rejects_zero_capacity() {
    assert!(AudioBridge::new(MediaBridgeConfig {
        from_ai_capacity: 0,
        ..MediaBridgeConfig::default()
    })
    .is_err());
    let mut bridge = AudioBridge::new(MediaBridgeConfig::default()).unwrap();
    assert!(bridge.peek_for_ai().is_none());
    bridge.push_to_ai(AudioFrame {
        timestamp: 9,
        codec: AudioCodec::Pcma,
        sample_rate: 8_000,
        samples: vec![1, 2],
    });
    assert_eq!(bridge.peek_for_ai().unwrap().timestamp, 9);
    assert_eq!(bridge.stats().to_ai.depth, 1);
    assert_eq!(bridge.stats().to_ai.capacity, 50);
    assert!(bridge.peek_for_rtp().is_none());
    assert_eq!(bridge.clear(), (1, 0));
    assert_eq!(bridge.stats().to_ai.pushed, 1);
}

#[test]
fn g711_decode_values_and_slice_codecs() {
    assert_eq!(ulaw_to_linear(0xff), 0);
    assert_eq!(ulaw_to_linear(0x7f), 0);
    assert_eq!(ulaw_to_linear(0x80), 32_124);
    assert_eq!(ulaw_to_linear(0x00), -32_124);
    assert_eq!(alaw_to_linear(0xd5), 8);
    assert_eq!(alaw_to_linear(0x55), -8);
    assert_eq!(alaw_to_linear(0xaa), 32_256);
    assert_eq!(linear_to_ulaw(i16::MIN), 0x00);
    assert_eq!(linear_to_alaw(i16::MIN), 0x2a);
    let samples = [0_i16, 1_000, -1_000];
    let encoded = encode(AudioCodec::Pcmu, &samples);
    assert_eq!(encoded, vec![0xff, 0xce, 0x4e]);
    let decoded = decode(AudioCodec::Pcmu, &encoded);
    assert_eq!(decoded.len(), 3);
    assert_eq!(decoded[0], 0);
    assert_eq!(encode(AudioCodec::Pcma, &samples), vec![0xd5, 0xfa, 0x7a]);
    for code in 0..=255_u8 {
        assert_eq!(linear_to_alaw(alaw_to_linear(code)), code);
        if code != 0x7f {
            assert_eq!(linear_to_ulaw(ulaw_to_linear(code)), code);
        }
    }
    for sample in [i16::MIN, -32_000, -1, 1, 255, 256, 32_700, i16::MAX] {
        assert!((i32::from(ulaw_to_linear(linear_to_ulaw(sample))) - i32::from(sample)).abs() <= 644);
        assert!((i32::from(alaw_to_linear(linear_to_alaw(sample))) - i32::from(sample)).abs() <= 512);
    }
}
