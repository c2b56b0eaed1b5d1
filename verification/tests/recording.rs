use call_platform::media::{AudioCodec, AudioFrame, DropPolicy, PushOutcome, QueueError};
use call_platform::recording::{AudioRecorder, RecorderConfig, RecordingError, RecordingMetadata};

fn frame(timestamp: u32, samples: &[i16]) -> AudioFrame {
    AudioFrame {
        timestamp,
        codec: AudioCodec::Pcmu,
        sample_rate: 8_000,
        samples: samples.to_vec(),
    }
}

#[test]
fn recorder_bounds_memory_and_preserves_wav_metadata() {
    let mut recorder = AudioRecorder::new(RecorderConfig {
        max_frames: 1,
        max_samples_per_frame: 4,
        ..RecorderConfig::default()
    })
    .unwrap();
    assert_eq!(
        recorder.push(frame(100, &[1, 2])).unwrap(),
        PushOutcome::Accepted
    );
    assert_eq!(
        recorder.push(frame(200, &[3, 4, 5])).unwrap(),
        PushOutcome::DroppedOldest
    );
    assert_eq!(
        recorder.metadata(),
        RecordingMetadata {
            sample_rate: 8_000,
            channels: 1,
            first_timestamp: Some(200),
            last_timestamp: Some(200),
            frames: 1,
            samples: 3,
            dropped_frames: 1,
        }
    );
    let wav = recorder.wav().unwrap();
    assert_eq!(&wav[..4], b"RIFF");
    assert_eq!(u32::from_le_bytes(wav[40..44].try_into().unwrap()), 6);
    assert_eq!(&wav[44..], &[3, 0, 4, 0, 5, 0]);
}

#[test]
fn invalid_frames_do_not_mutate_recording() {
    let mut recorder = AudioRecorder::new(RecorderConfig::default()).unwrap();
    assert!(matches!(
        recorder.push(AudioFrame {
            sample_rate: 16_000,
            ..frame(1, &[1])
        }),
        Err(RecordingError::SampleRateMismatch { .. })
    ));
    assert!(recorder.is_empty());
    assert!(matches!(
        recorder.push(frame(1, &[0; 1_601])),
        Err(RecordingError::FrameTooLarge { .. })
    ));
    assert!(recorder.is_empty());
}

#[test]
fn wav_header_fields_and_negative_samples_are_little_endian() {
    let mut recorder = AudioRecorder::new(RecorderConfig::default()).unwrap();
    recorder.push(frame(10, &[-1, 256])).unwrap();
    recorder.push(frame(20, &[-32_768])).unwrap();
    let wav = recorder.wav().unwrap();
    assert_eq!(wav.len(), 44 + 6);
    assert_eq!(u32::from_le_bytes(wav[4..8].try_into().unwrap()), 36 + 6);
    assert_eq!(&wav[8..16], b"WAVEfmt ");
    assert_eq!(u32::from_le_bytes(wav[16..20].try_into().unwrap()), 16);
    assert_eq!(u16::from_le_bytes(wav[20..22].try_into().unwrap()), 1);
    assert_eq!(u16::from_le_bytes(wav[22..24].try_into().unwrap()), 1);
    assert_eq!(u32::from_le_bytes(wav[24..28].try_into().unwrap()), 8_000);
    assert_eq!(u32::from_le_bytes(wav[28..32].try_into().unwrap()), 16_000);
    assert_eq!(u16::from_le_bytes(wav[32..34].try_into().unwrap()), 2);
    assert_eq!(u16::from_le_bytes(wav[34..36].try_into().unwrap()), 16);
    assert_eq!(&wav[36..40], b"data");
    assert_eq!(&wav[44..], &[0xff, 0xff, 0x00, 0x01, 0x00, 0x80]);
    let metadata = recorder.metadata();
    assert_eq!(metadata.first_timestamp, Some(10));
    assert_eq!(metadata.last_timestamp, Some(20));
    assert_eq!(metadata.samples, 3);
}

#[test]
fn recorder_configuration_is_validated() {
    assert_eq!(
        AudioRecorder::new(RecorderConfig {
            sample_rate: 0,
            ..RecorderConfig::default()
        })
        .err(),
        Some(RecordingError::InvalidConfig)
    );
    assert_eq!(
        AudioRecorder::new(RecorderConfig {
            channels: 2,
            ..RecorderConfig::default()
        })
        .err(),
        Some(RecordingError::InvalidConfig)
    );
    for config in [
        RecorderConfig { max_frames: 0, ..RecorderConfig::default() },
        RecorderConfig { max_samples_per_frame: 0, ..RecorderConfig::default() },
    ] {
        assert_eq!(AudioRecorder::new(config).err(), Some(RecordingError::InvalidConfig));
    }
    let recorder = AudioRecorder::new(RecorderConfig::default()).unwrap();
    assert_eq!(recorder.config(), RecorderConfig::default());
    assert!(recorder.is_empty());
    assert_eq!(
        RecordingError::from(QueueError::ZeroCapacity),
        RecordingError::Queue(QueueError::ZeroCapacity)
    );
    let mut recorder = AudioRecorder::new(RecorderConfig {
        max_frames: 1,
        drop_policy: DropPolicy::DropNewest,
        ..RecorderConfig::default()
    })
    .unwrap();
    assert_eq!(recorder.config().max_frames, 1);
    recorder.push(frame(1, &[5])).unwrap();
    assert_eq!(
        recorder.push(frame(2, &[6, 7])).unwrap(),
        PushOutcome::DroppedNewest
    );
    let metadata = recorder.metadata();
    assert_eq!(metadata.samples, 1);
    assert_eq!(metadata.dropped_frames, 1);
    assert_eq!(metadata.last_timestamp, Some(1));
    assert_eq!(&recorder.wav().unwrap()[44..], &[5, 0]);
}
