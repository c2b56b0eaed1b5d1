use call_platform::call_core::CallState;
use call_platform::media_time::MediaTime;
use call_platform::smoke::combined::{self, CombinedSmokeConfig, CombinedSmokeError};
use call_platform::jitter::{JitterBufferStats, JitterPushOutcome};
use call_platform::media::{MediaBridgeStats, PushOutcome, QueueStats};
use call_platform::smoke::media::{
    self, packet_observation, reclaimed_media, MediaObservation, MediaSmokeConfig, MediaSmokeError,
    ProcessSample, ReceivedMedia, ReclaimedMedia,
};
use call_platform::smoke::soak::{
    self, ensure_optional_count_stable, ensure_stable_process_counts, optional_range, LifecycleOutcome, LifecycleSoakConfig,
    LifecycleSoakError, ResidentWindow, SoakTally,
};
use call_platform::smoke::websocket::{self, mask_key, WebSocketSmokeConfig, WebSocketSmokeError};
use call_platform::smoke::{per_unit_growth, validate_config, SignalingSmokeConfig, SignalingSmokeError};

#[test]
fn derives_saturating_best_effort_per_unit_growth() {
    assert_eq!(per_unit_growth(Some(1_000), Some(1_500), 10), Some(50));
    assert_eq!(per_unit_growth(Some(1_500), Some(1_000), 10), Some(0));
    assert_eq!(per_unit_growth(Some(1_000), Some(1_500), 0), None);
    assert_eq!(per_unit_growth(None, Some(1_500), 10), None);
}

#[test]
fn resource_and_resident_helpers_fail_only_outside_bounds() {
    assert!(ensure_optional_count_stable(1, "threads", Some(1), Some(1)).is_ok());
    assert!(ensure_optional_count_stable(1, "threads", None, Some(2)).is_ok());
    assert!(matches!(
        ensure_optional_count_stable(2, "threads", Some(1), Some(2)),
        Err(LifecycleSoakError::ResourceDrift {
            cycle: 2,
            resource: "threads",
            before: 1,
            after: 2,
        })
    ));
    assert_eq!(optional_range(Some(1_000), Some(1_500)), Some(500));
    assert_eq!(optional_range(None, Some(1_500)), None);
}

#[test]
fn signaling_bounds_must_be_non_zero() {
    assert_eq!(validate_config(SignalingSmokeConfig::default()), Ok(()));
    assert_eq!(
        validate_config(SignalingSmokeConfig { total_calls: 0, concurrent_calls: 1 }),
        Err(SignalingSmokeError::InvalidConfig("total_calls must be non-zero"))
    );
    assert_eq!(
        validate_config(SignalingSmokeConfig { total_calls: 1, concurrent_calls: 0 }),
        Err(SignalingSmokeError::InvalidConfig("concurrent_calls must be non-zero"))
    );
}

#[test]
fn media_bounds_reject_each_invalid_field() {
    assert_eq!(media::validate_config(MediaSmokeConfig::default()), Ok(()));
    for config in [
        MediaSmokeConfig { total_streams: 0, ..MediaSmokeConfig::default() },
        MediaSmokeConfig { total_streams: 1, concurrent_streams: 2, ..MediaSmokeConfig::default() },
        MediaSmokeConfig { packets_per_stream: 0, ..MediaSmokeConfig::default() },
        MediaSmokeConfig { queue_capacity: 0, ..MediaSmokeConfig::default() },
        MediaSmokeConfig { queue_capacity: 4_097, ..MediaSmokeConfig::default() },
        MediaSmokeConfig { total_streams: 1_000_001, ..MediaSmokeConfig::default() },
    ] {
        assert!(matches!(
            media::validate_config(config),
            Err(MediaSmokeError::InvalidConfig(_))
        ));
    }
    assert_eq!(
        media::validate_config(MediaSmokeConfig { total_streams: 1, concurrent_streams: 2, ..MediaSmokeConfig::default() }),
        Err(MediaSmokeError::InvalidConfig("concurrent_streams cannot exceed total_streams"))
    );
}

#[test]
fn websocket_and_combined_bounds_reject_invalid_fields() {
    assert_eq!(websocket::validate_config(WebSocketSmokeConfig::default()), Ok(()));
    assert_eq!(
        websocket::validate_config(WebSocketSmokeConfig { frames_per_stream: 0, ..WebSocketSmokeConfig::default() }),
        Err(WebSocketSmokeError::InvalidConfig("frames_per_stream must be within the smoke safety bound"))
    );
    assert_eq!(combined::validate_config(CombinedSmokeConfig::default()), Ok(()));
    assert_eq!(
        combined::validate_config(CombinedSmokeConfig { total_calls: 0, ..CombinedSmokeConfig::default() }),
        Err(CombinedSmokeError::InvalidConfig("total_calls must be non-zero"))
    );
    assert_eq!(
        combined::validate_config(CombinedSmokeConfig { queue_capacity: 0, ..CombinedSmokeConfig::default() }),
        Err(CombinedSmokeError::InvalidConfig("queue_capacity must be between 1 and 4,096"))
    );
}

#[test]
fn soak_bounds_cover_cycles_warmup_drift_and_media() {
    let config = LifecycleSoakConfig {
        minimum_cycles: 3,
        minimum_duration: MediaTime::zero(),
        calls_per_cycle: 6,
        packets_per_answered_call: 2,
        queue_capacity: 1,
        warmup_cycles: 1,
        max_resident_drift_bytes: u64::MAX,
        enforce_process_count_stability: false,
    };
    assert_eq!(soak::validate_config(config), Ok(()));
    assert_eq!(soak::validate_config(LifecycleSoakConfig::default()), Ok(()));
    for invalid in [
        LifecycleSoakConfig { minimum_cycles: 0, ..config },
        LifecycleSoakConfig { calls_per_cycle: 2, ..config },
        LifecycleSoakConfig { warmup_cycles: 3, ..config },
        LifecycleSoakConfig { max_resident_drift_bytes: 0, ..config },
        LifecycleSoakConfig { minimum_duration: MediaTime::from_secs(86_401), ..config },
        LifecycleSoakConfig { queue_capacity: 0, ..config },
    ] {
        assert!(matches!(
            soak::validate_config(invalid),
            Err(LifecycleSoakError::InvalidConfig(_))
        ));
    }
    assert_eq!(
        soak::validate_config(LifecycleSoakConfig { packets_per_answered_call: 0, ..config }),
        Err(LifecycleSoakError::InvalidConfig("packets_per_stream must be non-zero"))
    );
}

#[test]
fn process_peaks_keep_the_larger_known_observation() {
    let mut peak = ProcessSample { resident_bytes: Some(10), open_file_descriptors: None, threads: Some(4) };
    peak.merge_peak(ProcessSample { resident_bytes: Some(7), open_file_descriptors: Some(3), threads: Some(6) });
    assert_eq!(
        peak,
        ProcessSample { resident_bytes: Some(10), open_file_descriptors: Some(3), threads: Some(6) }
    );
    peak.merge_peak(ProcessSample::default());
    assert_eq!(peak.threads, Some(6));
}

#[test]
fn mask_keys_take_the_low_bytes_of_stream_and_frame() {
    assert_eq!(mask_key(0x0102_0304, 0x0a0b), [0x04, 0x03, 0x0b, 0x0a]);
    assert_eq!(mask_key(1, 2), [1, 0, 2, 0]);
}

#[test]
fn rejects_zero_bounds() {
    for config in [
        SignalingSmokeConfig {
            total_calls: 0,
            concurrent_calls: 1,
        },
        SignalingSmokeConfig {
            total_calls: 1,
            concurrent_calls: 0,
        },
    ] {
        assert!(matches!(
            validate_config(config),
            Err(SignalingSmokeError::InvalidConfig(_))
        ));
    }
}

#[test]
fn rejects_invalid_media_smoke_bounds() {
    for config in [
        MediaSmokeConfig {
            total_streams: 0,
            ..MediaSmokeConfig::default()
        },
        MediaSmokeConfig {
            total_streams: 1,
            concurrent_streams: 2,
            ..MediaSmokeConfig::default()
        },
        MediaSmokeConfig {
            packets_per_stream: 0,
            ..MediaSmokeConfig::default()
        },
        MediaSmokeConfig {
            queue_capacity: 0,
            ..MediaSmokeConfig::default()
        },
    ] {
        assert!(matches!(
            media::validate_config(config),
            Err(MediaSmokeError::InvalidConfig(_))
        ));
    }
}

#[test]
fn rejects_invalid_websocket_smoke_bounds() {
    for config in [
        WebSocketSmokeConfig {
            total_streams: 0,
            ..WebSocketSmokeConfig::default()
        },
        WebSocketSmokeConfig {
            total_streams: 1,
            concurrent_streams: 2,
            ..WebSocketSmokeConfig::default()
        },
        WebSocketSmokeConfig {
            frames_per_stream: 0,
            ..WebSocketSmokeConfig::default()
        },
        WebSocketSmokeConfig {
            queue_capacity: 0,
            ..WebSocketSmokeConfig::default()
        },
    ] {
        assert!(matches!(
            websocket::validate_config(config),
            Err(WebSocketSmokeError::InvalidConfig(_))
        ));
    }
}

#[test]
fn rejects_invalid_combined_smoke_bounds() {
    for config in [
        CombinedSmokeConfig {
            total_calls: 0,
            ..CombinedSmokeConfig::default()
        },
        CombinedSmokeConfig {
            total_calls: 1,
            concurrent_calls: 2,
            ..CombinedSmokeConfig::default()
        },
        CombinedSmokeConfig {
            packets_per_call: 0,
            ..CombinedSmokeConfig::default()
        },
        CombinedSmokeConfig {
            queue_capacity: 0,
            ..CombinedSmokeConfig::default()
        },
    ] {
        assert!(matches!(
            combined::validate_config(config),
            Err(CombinedSmokeError::InvalidConfig(_))
        ));
    }
}

fn soak_test_config() -> LifecycleSoakConfig {
    LifecycleSoakConfig {
        minimum_cycles: 3,
        minimum_duration: MediaTime::zero(),
        calls_per_cycle: 6,
        packets_per_answered_call: 2,
        queue_capacity: 1,
        warmup_cycles: 1,
        max_resident_drift_bytes: u64::MAX,
        enforce_process_count_stability: false,
    }
}

#[test]
fn rejects_invalid_soak_bounds() {
    for config in [
        LifecycleSoakConfig {
            minimum_cycles: 0,
            ..soak_test_config()
        },
        LifecycleSoakConfig {
            calls_per_cycle: 2,
            ..soak_test_config()
        },
        LifecycleSoakConfig {
            warmup_cycles: 3,
            ..soak_test_config()
        },
        LifecycleSoakConfig {
            max_resident_drift_bytes: 0,
            ..soak_test_config()
        },
    ] {
        assert!(matches!(
            soak::validate_config(config),
            Err(LifecycleSoakError::InvalidConfig(_))
        ));
    }
}

#[test]
fn cycle_offsets_take_each_lifecycle_in_turn() {
    let outcomes: Vec<LifecycleOutcome> = (0..6).map(LifecycleOutcome::for_offset).collect();
    assert_eq!(
        outcomes,
        vec![
            LifecycleOutcome::Answered,
            LifecycleOutcome::Rejected,
            LifecycleOutcome::Cancelled,
            LifecycleOutcome::Answered,
            LifecycleOutcome::Rejected,
            LifecycleOutcome::Cancelled,
        ]
    );
}

#[test]
fn resident_window_ignores_warmup_and_bounds_post_warmup_drift() {
    let config = LifecycleSoakConfig {
        warmup_cycles: 1,
        max_resident_drift_bytes: 500,
        ..soak_test_config()
    };
    let sample = |bytes: Option<u64>| ProcessSample {
        resident_bytes: bytes,
        open_file_descriptors: None,
        threads: None,
    };
    let mut window = ResidentWindow::new();
    assert_eq!(window.observe(1, config, sample(Some(9_000))), Ok(()));
    assert_eq!(window, ResidentWindow::new());
    assert_eq!(window.observe(2, config, sample(Some(1_000))), Ok(()));
    assert_eq!(window.observe(3, config, sample(None)), Ok(()));
    assert_eq!(window.observe(3, config, sample(Some(1_500))), Ok(()));
    assert_eq!(
        window,
        ResidentWindow {
            min_bytes: Some(1_000),
            max_bytes: Some(1_500)
        }
    );
    assert_eq!(
        window.observe(4, config, sample(Some(900))),
        Err(LifecycleSoakError::ResidentDrift {
            observed_bytes: 600,
            maximum_bytes: 500
        })
    );
    assert_eq!(window.min_bytes, Some(900));
}

#[test]
fn process_counts_must_return_to_their_initial_values() {
    let before = ProcessSample {
        resident_bytes: Some(1),
        open_file_descriptors: Some(10),
        threads: Some(4),
    };
    assert_eq!(ensure_stable_process_counts(1, before, before), Ok(()));
    assert_eq!(
        ensure_stable_process_counts(2, before, ProcessSample { threads: Some(5), ..before }),
        Err(LifecycleSoakError::ResourceDrift {
            cycle: 2,
            resource: "threads",
            before: 4,
            after: 5
        })
    );
    assert_eq!(
        ensure_stable_process_counts(
            3,
            before,
            ProcessSample { open_file_descriptors: Some(11), threads: Some(5), ..before }
        ),
        Err(LifecycleSoakError::ResourceDrift {
            cycle: 3,
            resource: "file descriptors",
            before: 10,
            after: 11
        })
    );
    assert_eq!(
        ensure_stable_process_counts(4, before, ProcessSample { open_file_descriptors: None, ..before }),
        Ok(())
    );
}

fn queue(depth: usize, dropped_oldest: u64) -> QueueStats {
    QueueStats { depth, capacity: 4, pushed: 0, dropped_oldest, dropped_newest: 0 }
}

fn jitter_depth(depth: usize) -> JitterBufferStats {
    JitterBufferStats { depth, dropped_late: 1, ..JitterBufferStats::default() }
}

#[test]
fn packet_round_trips_are_checked_and_observed() {
    let buffered = ReceivedMedia::AudioBuffered { outcome: JitterPushOutcome::Accepted, timestamp: 1_000 };
    let played = Some(ReceivedMedia::Audio { queued: PushOutcome::Accepted, timestamp: 1_000, samples: 160 });
    let bridge = MediaBridgeStats { to_ai: queue(2, 0), from_ai: queue(0, 0) };
    assert_eq!(
        packet_observation(3, buffered, Some(jitter_depth(1)), played, PushOutcome::Accepted, true, bridge, Some(jitter_depth(0))),
        Ok(MediaObservation { ai_queue_depth: 2, jitter_depth: 1, retained_payload_bytes: 800 })
    );
    assert_eq!(
        packet_observation(
            3,
            ReceivedMedia::AudioBuffered { outcome: JitterPushOutcome::DroppedLate, timestamp: 1_000 },
            None, played, PushOutcome::Accepted, true, bridge, None
        ),
        Err(MediaSmokeError::Invariant {
            stream_number: 3,
            detail: "valid ordered RTP packet was not retained by jitter playout"
        })
    );
    assert_eq!(
        packet_observation(3, buffered, None, None, PushOutcome::Accepted, true, bridge, None),
        Err(MediaSmokeError::Invariant {
            stream_number: 3,
            detail: "retained RTP packet was not due at its fixed playout deadline"
        })
    );
    assert_eq!(
        packet_observation(3, buffered, None, played, PushOutcome::DroppedOldest, true, bridge, None),
        Err(MediaSmokeError::Invariant {
            stream_number: 3,
            detail: "immediately drained outbound AI queue rejected audio"
        })
    );
    assert_eq!(
        packet_observation(3, buffered, None, played, PushOutcome::Accepted, false, bridge, None),
        Err(MediaSmokeError::Invariant {
            stream_number: 3,
            detail: "queued AI audio produced no outbound RTP packet"
        })
    );
}

#[test]
fn reclaimed_sessions_must_be_empty_and_report_their_drops() {
    let empty = MediaBridgeStats { to_ai: queue(0, 4), from_ai: queue(0, 0) };
    assert_eq!(
        reclaimed_media(1, empty, Some(jitter_depth(0))),
        Ok(ReclaimedMedia { ai_queue_drops: 4, jitter_drops: 1 })
    );
    assert_eq!(
        reclaimed_media(1, empty, None),
        Err(MediaSmokeError::Invariant { stream_number: 1, detail: "configured jitter stats were absent" })
    );
    assert_eq!(
        reclaimed_media(1, MediaBridgeStats { to_ai: queue(1, 0), from_ai: queue(0, 0) }, Some(jitter_depth(0))),
        Err(MediaSmokeError::Invariant { stream_number: 1, detail: "media queues were not empty at reclamation" })
    );
}

fn soak_failure(cycle: usize, detail: &'static str) -> Result<(), LifecycleSoakError> {
    Err(LifecycleSoakError::Invariant { cycle, detail })
}

#[test]
fn soak_lifecycle_responses_are_checked_by_status() {
    assert!(soak::has_status(&[180, 200], 200));
    assert!(!soak::has_status(&[180, 486], 200));
    assert!(!soak::has_status(&[], 200));
    assert_eq!(soak::check_answer_response(3, &[200]), Ok(()));
    assert_eq!(
        soak::check_answer_response(3, &[180]),
        soak_failure(3, "answer produced no 200 response")
    );
    assert_eq!(soak::check_disconnect_response(4, &[200]), Ok(()));
    assert_eq!(
        soak::check_disconnect_response(4, &[481]),
        soak_failure(4, "BYE produced no 200 response")
    );
    assert_eq!(soak::check_rejection_response(5, &[486]), Ok(()));
    assert_eq!(
        soak::check_rejection_response(5, &[200]),
        soak_failure(5, "rejection produced no 486 response")
    );
    assert_eq!(soak::check_cancel_responses(6, &[487, 200]), Ok(()));
    assert_eq!(
        soak::check_cancel_responses(6, &[200]),
        soak_failure(6, "CANCEL produced neither the required 200 nor 487 response")
    );
    assert_eq!(
        soak::check_cancel_responses(6, &[487]),
        soak_failure(6, "CANCEL produced neither the required 200 nor 487 response")
    );
}

#[test]
fn soak_call_states_and_reclamation_are_checked() {
    assert_eq!(soak::check_answered_call(1, CallState::Answered, 1), Ok(()));
    assert_eq!(
        soak::check_answered_call(1, CallState::Ended, 1),
        soak_failure(1, "answered call did not remain Answered during media work")
    );
    assert_eq!(
        soak::check_answered_call(1, CallState::Answered, 0),
        soak_failure(1, "answered call retained no SIP dialog")
    );
    assert_eq!(soak::check_call_ended(2, CallState::Ended, "cancelled call did not reach Ended"), Ok(()));
    assert_eq!(
        soak::check_call_ended(2, CallState::Answered, "rejected call did not reach Ended"),
        soak_failure(2, "rejected call did not reach Ended")
    );
    assert_eq!(soak::check_logical_reclamation(7, 0, 0, 0), Ok(()));
    assert_eq!(
        soak::check_logical_reclamation(7, 1, 1, 1),
        soak_failure(7, "call registry was not empty after the cycle")
    );
    assert_eq!(
        soak::check_logical_reclamation(7, 0, 2, 1),
        soak_failure(7, "SIP transactions remained after the cycle")
    );
    assert_eq!(
        soak::check_logical_reclamation(7, 0, 0, 1),
        soak_failure(7, "SIP dialogs remained after the cycle")
    );
}

#[test]
fn soak_tally_counts_lifecycles_and_saturates() {
    let mut tally = SoakTally::new();
    for _ in 0..3 {
        tally.record_media_packet();
    }
    tally.record_answered(ReclaimedMedia { ai_queue_drops: 2, jitter_drops: 1 });
    tally.record_rejected();
    tally.record_cancelled();
    tally.record_reclaimed();
    tally.record_reclaimed();
    assert_eq!(tally.inbound_packets, 3);
    assert_eq!(tally.played_packets, 3);
    assert_eq!(tally.outbound_packets, 3);
    assert_eq!(tally.ai_queue_drops, 2);
    assert_eq!(tally.jitter_drops, 1);
    assert_eq!(tally.answered_calls, 1);
    assert_eq!(tally.rejected_calls, 1);
    assert_eq!(tally.cancelled_calls, 1);
    assert_eq!(tally.reclaimed_calls, 2);

    tally.jitter_drops = u64::MAX - 1;
    tally.record_answered(ReclaimedMedia { ai_queue_drops: 0, jitter_drops: 5 });
    assert_eq!(tally.jitter_drops, u64::MAX);
    assert_eq!(tally.answered_calls, 2);
}
