use call_platform::dtmf::{DtmfDigit, DtmfEvent, Notification};
use call_platform::media::AudioCodec;
use call_platform::session::{
    check_frame_for_rtp, check_received_samples, dtmf_send_payload_type, route_packet,
    sender_report_counter, validate_limits, PacketRoute,
    DtmfInbox, LossReport, MediaSessionError, ReceiverReportClock, ReceptionCounts, SessionLimits,
};

fn limits() -> SessionLimits {
    SessionLimits {
        payload_type: 0,
        dtmf_payload_type: Some(101),
        max_audio_samples: 1_600,
        max_pending_dtmf: 2,
    }
}

#[test]
fn session_limits_reject_bad_payload_types_and_zero_bounds() {
    assert_eq!(validate_limits(limits()), Ok(limits()));
    let no_dtmf = SessionLimits { dtmf_payload_type: None, ..limits() };
    assert_eq!(validate_limits(no_dtmf), Ok(no_dtmf));
    for bad in [
        SessionLimits { payload_type: 128, ..limits() },
        SessionLimits { dtmf_payload_type: Some(128), ..limits() },
        SessionLimits { dtmf_payload_type: Some(0), ..limits() },
        SessionLimits { max_audio_samples: 0, ..limits() },
        SessionLimits { max_pending_dtmf: 0, ..limits() },
    ] {
        assert_eq!(validate_limits(bad), Err(MediaSessionError::InvalidConfig));
    }
    assert_eq!(dtmf_send_payload_type(limits()), Ok(101));
    assert_eq!(dtmf_send_payload_type(no_dtmf), Err(MediaSessionError::DtmfNotNegotiated));
}

#[test]
fn audio_frames_are_checked_before_and_after_rtp() {
    assert_eq!(check_received_samples(1_600, limits()), Ok(()));
    assert_eq!(
        check_received_samples(1_601, limits()),
        Err(MediaSessionError::AudioFrameTooLarge { actual: 1_601, maximum: 1_600 })
    );
    assert_eq!(
        check_frame_for_rtp(AudioCodec::Pcmu, 8_000, 160, AudioCodec::Pcmu, 8_000, 1_600),
        Ok(160)
    );
    assert_eq!(
        check_frame_for_rtp(AudioCodec::Pcma, 16_000, 2_000, AudioCodec::Pcmu, 8_000, 1_600),
        Err(MediaSessionError::CodecMismatch {
            expected: AudioCodec::Pcmu,
            actual: AudioCodec::Pcma
        })
    );
    assert_eq!(
        check_frame_for_rtp(AudioCodec::Pcmu, 16_000, 2_000, AudioCodec::Pcmu, 8_000, 1_600),
        Err(MediaSessionError::SampleRateMismatch { expected: 8_000, actual: 16_000 })
    );
    assert_eq!(
        check_frame_for_rtp(AudioCodec::Pcmu, 8_000, 2_000, AudioCodec::Pcmu, 8_000, 1_600),
        Err(MediaSessionError::AudioFrameTooLarge { actual: 2_000, maximum: 1_600 })
    );
}

#[test]
fn receiver_reports_measure_loss_per_interval() {
    let mut clock = ReceiverReportClock::new();
    assert_eq!(clock.report(None), Err(MediaSessionError::NoRtpForReceiverReport));
    let counts = ReceptionCounts { source_ssrc: 77, expected_packets: 3, packets_lost: 1 };
    assert_eq!(
        clock.report(Some(counts)),
        Ok(LossReport { source_ssrc: 77, fraction_lost: 85, cumulative_lost: 1 })
    );
    assert_eq!(
        clock.report(Some(counts)),
        Ok(LossReport { source_ssrc: 77, fraction_lost: 0, cumulative_lost: 1 })
    );
    let later = ReceptionCounts { source_ssrc: 77, expected_packets: 7, packets_lost: 3 };
    assert_eq!(clock.report(Some(later)).unwrap().fraction_lost, 128);
    let other = ReceptionCounts { source_ssrc: 9, expected_packets: 4, packets_lost: 4 };
    assert_eq!(
        clock.report(Some(other)),
        Ok(LossReport { source_ssrc: 9, fraction_lost: 255, cumulative_lost: 4 })
    );
    let huge = ReceptionCounts {
        source_ssrc: 9,
        expected_packets: u64::MAX,
        packets_lost: u64::MAX,
    };
    assert_eq!(
        clock.report(Some(huge)),
        Ok(LossReport { source_ssrc: 9, fraction_lost: 1, cumulative_lost: 0x7f_ffff })
    );
}

fn press(digit: DtmfDigit, end: bool, duration: u16) -> DtmfEvent {
    DtmfEvent { digit, end, reserved: false, volume: 10, duration }
}

#[test]
fn dtmf_inbox_collapses_retransmissions_and_drops_the_oldest() {
    let mut inbox = DtmfInbox::new(2);
    let first = inbox.receive(press(DtmfDigit::One, false, 160), true, 1_000);
    assert_eq!(first.notification, Some(Notification::Started(DtmfDigit::One)));
    assert!(first.queued);
    assert!(first.marker);
    assert_eq!(first.timestamp, 1_000);
    let repeat = inbox.receive(press(DtmfDigit::One, false, 320), false, 1_000);
    assert_eq!(repeat.notification, None);
    assert!(!repeat.queued);
    inbox.receive(press(DtmfDigit::One, true, 480), false, 1_000);
    inbox.receive(press(DtmfDigit::Two, false, 160), true, 2_000);
    assert_eq!(inbox.pending(), 2);
    assert_eq!(inbox.dropped(), 1);
    assert_eq!(inbox.notifications(), 3);
    assert_eq!(
        inbox.pop(),
        Some(Notification::Ended { digit: DtmfDigit::One, duration: 480 })
    );
    assert_eq!(inbox.pop(), Some(Notification::Started(DtmfDigit::Two)));
    assert_eq!(inbox.pop(), None);
}

#[test]
fn packets_route_by_payload_type_and_counters_saturate() {
    assert_eq!(route_packet(Some(0), limits()), PacketRoute::Audio);
    assert_eq!(route_packet(Some(101), limits()), PacketRoute::Dtmf);
    assert_eq!(route_packet(Some(8), limits()), PacketRoute::Audio);
    assert_eq!(route_packet(None, limits()), PacketRoute::Audio);
    let no_dtmf = SessionLimits { dtmf_payload_type: None, ..limits() };
    assert_eq!(route_packet(Some(101), no_dtmf), PacketRoute::Audio);
    assert_eq!(sender_report_counter(2), 2);
    assert_eq!(sender_report_counter(u64::from(u32::MAX) + 5), u32::MAX);
}
