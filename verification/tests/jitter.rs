use call_platform::jitter::{
    AudioJitterBuffer, JitterBufferConfig, JitterPushOutcome, RtpPacket,
};
use call_platform::media_time::MediaTime;

fn packet(sequence: u16, timestamp: u32, ssrc: u32) -> RtpPacket {
    RtpPacket {
        padding: false,
        marker: false,
        payload_type: 0,
        sequence_number: sequence,
        timestamp,
        ssrc,
        csrcs: Vec::new(),
        payload: vec![sequence.to_le_bytes()[0]],
    }
}

#[test]
fn reorders_packets_until_their_fixed_playout_deadlines() {
    let mut jitter = AudioJitterBuffer::new(JitterBufferConfig {
        max_packets: 4,
        playout_delay: MediaTime::from_millis(60),
    });
    assert_eq!(
        jitter.push(packet(11, 1_160, 7), MediaTime::from_millis(20), 8_000),
        JitterPushOutcome::Accepted
    );
    assert_eq!(
        jitter.push(packet(10, 1_000, 7), MediaTime::from_millis(30), 8_000),
        JitterPushOutcome::Accepted
    );
    assert_eq!(jitter.next_deadline(), Some(MediaTime::from_millis(60)));
    assert!(jitter.pop_due(MediaTime::from_millis(59)).is_none());
    assert_eq!(
        jitter
            .pop_due(MediaTime::from_millis(60))
            .unwrap()
            .sequence_number,
        10
    );
    assert_eq!(
        jitter
            .pop_due(MediaTime::from_millis(80))
            .unwrap()
            .sequence_number,
        11
    );
}

#[test]
fn preserves_imminent_audio_when_the_packet_bound_is_full() {
    let mut jitter = AudioJitterBuffer::new(JitterBufferConfig {
        max_packets: 2,
        ..JitterBufferConfig::default()
    });
    assert_eq!(
        jitter.push(packet(2, 320, 7), MediaTime::zero(), 8_000),
        JitterPushOutcome::Accepted
    );
    assert_eq!(
        jitter.push(packet(3, 480, 7), MediaTime::zero(), 8_000),
        JitterPushOutcome::Accepted
    );
    assert_eq!(
        jitter.push(packet(1, 160, 7), MediaTime::zero(), 8_000),
        JitterPushOutcome::ReplacedFuture
    );
    assert_eq!(
        jitter.push(packet(4, 640, 7), MediaTime::zero(), 8_000),
        JitterPushOutcome::DroppedOverflow
    );
    assert_eq!(jitter.stats().depth, 2);
    assert_eq!(jitter.stats().dropped_overflow, 2);
}

#[test]
fn rejects_duplicates_and_late_packets_and_resets_on_source_change() {
    let mut jitter = AudioJitterBuffer::new(JitterBufferConfig::default());
    let first = packet(u16::MAX, u32::MAX - 79, 7);
    assert_eq!(
        jitter.push(first.clone(), MediaTime::zero(), 8_000),
        JitterPushOutcome::Accepted
    );
    assert_eq!(
        jitter.push(first, MediaTime::zero(), 8_000),
        JitterPushOutcome::DroppedDuplicate
    );
    assert_eq!(
        jitter.push(packet(0, 80, 7), MediaTime::zero(), 8_000),
        JitterPushOutcome::Accepted
    );
    assert_eq!(
        jitter
            .pop_due(MediaTime::from_millis(60))
            .unwrap()
            .sequence_number,
        u16::MAX
    );
    assert_eq!(
        jitter.push(
            packet(u16::MAX - 1, u32::MAX - 239, 7),
            MediaTime::zero(),
            8_000
        ),
        JitterPushOutcome::DroppedLate
    );
    assert_eq!(
        jitter.push(packet(1, 160, 8), MediaTime::from_millis(70), 8_000),
        JitterPushOutcome::SourceReset
    );
    assert_eq!(jitter.stats().source_resets, 1);
    assert_eq!(jitter.stats().dropped_on_source_reset, 1);
}

#[test]
fn marker_reanchors_an_empty_buffer_after_a_timestamp_discontinuity() {
    let mut jitter = AudioJitterBuffer::new(JitterBufferConfig::default());
    jitter.push(packet(1, 160, 7), MediaTime::zero(), 8_000);
    assert!(jitter.pop_due(MediaTime::from_millis(60)).is_some());
    let mut restarted = packet(2, 80_000, 7);
    restarted.marker = true;
    jitter.push(restarted, MediaTime::from_secs(1), 8_000);
    assert_eq!(jitter.next_deadline(), Some(MediaTime::from_millis(1_060)));
}

#[test]
fn forward_timestamp_jump_with_buffered_audio_reanchors_playout() {
    let mut jitter = AudioJitterBuffer::new(JitterBufferConfig::default());
    assert_eq!(
        jitter.push(packet(1, 160, 7), MediaTime::zero(), 8_000),
        JitterPushOutcome::Accepted
    );
    assert_eq!(
        jitter.push(packet(2, 320, 7), MediaTime::from_millis(20), 8_000),
        JitterPushOutcome::Accepted
    );
    // The sender jumps its timestamp forward two seconds (16,000 ticks at
    // 8 kHz) without changing SSRC while audio is still buffered. Without
    // re-anchoring this packet would not be due until 60 ms + 2 s.
    assert_eq!(
        jitter.push(packet(3, 16_160, 7), MediaTime::from_millis(40), 8_000),
        JitterPushOutcome::Accepted
    );
    assert_eq!(jitter.stats().timestamp_reanchors, 1);
    // Buffered packets keep their already-resolved deadlines.
    assert_eq!(jitter.next_deadline(), Some(MediaTime::from_millis(60)));
    assert_eq!(
        jitter
            .pop_due(MediaTime::from_millis(60))
            .unwrap()
            .sequence_number,
        1
    );
    assert_eq!(
        jitter
            .pop_due(MediaTime::from_millis(80))
            .unwrap()
            .sequence_number,
        2
    );
    // The jumped packet plays at arrival + delay (100 ms), not anchor +
    // jump (2.06 s), so the sender discontinuity cannot stall playout.
    assert!(jitter.pop_due(MediaTime::from_millis(99)).is_none());
    assert_eq!(
        jitter
            .pop_due(MediaTime::from_millis(100))
            .unwrap()
            .sequence_number,
        3
    );
}

#[test]
fn configuration_bounds_match_media_session_validation() {
    assert!(JitterBufferConfig::default().is_valid());
    assert!(!JitterBufferConfig { max_packets: 0, ..JitterBufferConfig::default() }.is_valid());
    assert!(!JitterBufferConfig { max_packets: 4_097, ..JitterBufferConfig::default() }.is_valid());
    assert!(JitterBufferConfig { max_packets: 4_096, ..JitterBufferConfig::default() }.is_valid());
    assert!(!JitterBufferConfig { max_packets: 4, playout_delay: MediaTime::zero() }.is_valid());
    assert!(JitterBufferConfig { max_packets: 4, playout_delay: MediaTime::from_secs(10) }.is_valid());
    assert!(!JitterBufferConfig {
        max_packets: 4,
        playout_delay: MediaTime::from_nanos(10_000_000_001)
    }
    .is_valid());
}

#[test]
fn sequence_wraparound_keeps_playout_order() {
    let mut jitter = AudioJitterBuffer::new(JitterBufferConfig::default());
    assert_eq!(jitter.push(packet(65_534, 100, 9), MediaTime::zero(), 8_000), JitterPushOutcome::Accepted);
    assert_eq!(jitter.push(packet(1, 420, 9), MediaTime::zero(), 8_000), JitterPushOutcome::Accepted);
    assert_eq!(jitter.push(packet(65_535, 260, 9), MediaTime::zero(), 8_000), JitterPushOutcome::Accepted);
    let order: Vec<u16> = (0..3)
        .map(|_| jitter.pop_due(MediaTime::from_secs(1)).unwrap().sequence_number)
        .collect();
    assert_eq!(order, vec![65_534, 65_535, 1]);
    assert_eq!(jitter.stats().played, 3);
    assert_eq!(jitter.stats().depth, 0);
    assert!(jitter.next_deadline().is_none());
}

#[test]
fn deadlines_follow_the_clock_rate_from_the_anchor() {
    let mut jitter = AudioJitterBuffer::new(JitterBufferConfig::default());
    jitter.push(packet(5, 1_000, 3), MediaTime::from_millis(100), 8_000);
    assert_eq!(jitter.next_deadline(), Some(MediaTime::from_millis(160)));
    // 1 tick at 8 kHz is 125 microseconds; an earlier timestamp moves the deadline back.
    jitter.push(packet(4, 999, 3), MediaTime::from_millis(100), 8_000);
    assert_eq!(jitter.next_deadline(), Some(MediaTime::from_nanos(159_875_000)));
    // A zero clock rate counts as 1 Hz.
    let mut slow = AudioJitterBuffer::new(JitterBufferConfig::default());
    slow.push(packet(1, 0, 3), MediaTime::zero(), 0);
    slow.push(packet(2, 0, 3), MediaTime::zero(), 0);
    assert_eq!(slow.stats().dropped_duplicate, 0);
    assert_eq!(slow.stats().accepted, 2);
}

#[test]
fn zero_capacity_drops_every_packet_as_overflow() {
    let mut jitter = AudioJitterBuffer::new(JitterBufferConfig {
        max_packets: 0,
        ..JitterBufferConfig::default()
    });
    assert_eq!(jitter.push(packet(1, 160, 7), MediaTime::zero(), 8_000), JitterPushOutcome::DroppedOverflow);
    assert_eq!(jitter.stats().dropped_overflow, 1);
    assert_eq!(jitter.stats().depth, 0);
}
