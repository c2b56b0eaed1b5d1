//! Bounded PCM recording for decoded media frames.

use vstd::prelude::*;

use crate::media::{push_post, AudioFrame, BoundedMediaQueue, DropPolicy, PushOutcome, QueueError, QueueView};

verus! {

/// Bounds and format settings for an [`AudioRecorder`].
#[derive(Clone, Copy, Debug, PartialEq, Eq, Structural)]
pub struct RecorderConfig {
    /// Maximum number of decoded frames retained in memory.
    pub max_frames: usize,
    /// Maximum number of PCM samples accepted in one frame.
    pub max_samples_per_frame: usize,
    /// PCM sample rate written to the WAV header.
    pub sample_rate: u32,
    /// Number of PCM channels. The bounded recorder currently supports mono.
    pub channels: u16,
    /// Backpressure policy when the retained-frame bound is full.
    pub drop_policy: DropPolicy,
}

impl Default for RecorderConfig {
    fn default() -> (config: Self)
        ensures
            config == (RecorderConfig {
                max_frames: 9000,
                max_samples_per_frame: 1600,
                sample_rate: 8000,
                channels: 1,
                drop_policy: DropPolicy::DropOldest,
            }),
    {
        RecorderConfig {
            max_frames: 9000,
            max_samples_per_frame: 1600,
            sample_rate: 8000,
            channels: 1,
            drop_policy: DropPolicy::DropOldest,
        }
    }
}

/// The configuration check: non-zero bounds and rate, and mono; any other
/// bound or format is an invalid configuration.
pub open spec fn config_check(config: RecorderConfig) -> Result<RecorderConfig, RecordingError> {
    if config.max_frames == 0 || config.max_samples_per_frame == 0 || config.sample_rate == 0
        || config.channels != 1 {
        Err(RecordingError::InvalidConfig)
    } else {
        Ok(config)
    }
}

impl RecorderConfig {
    fn validate(self) -> (result: Result<Self, RecordingError>)
        ensures
            result == config_check(self),
    {
        if self.max_frames == 0 || self.max_samples_per_frame == 0 || self.sample_rate == 0 {
            return Err(RecordingError::InvalidConfig);
        }
        if self.channels != 1 {
            return Err(RecordingError::InvalidConfig);
        }
        Ok(self)
    }
}

/// Errors raised while accepting frames or producing a recording.
#[derive(Clone, Debug, PartialEq, Eq, Structural)]
pub enum RecordingError {
    /// A recorder bound or sample rate was zero.
    InvalidConfig,
    /// The requested channel count is not supported by this recorder.
    UnsupportedChannels(u16),
    /// A frame has a different sample rate than the recording.
    SampleRateMismatch {
        /// Configured recording sample rate.
        expected: u32,
        /// Frame sample rate.
        actual: u32,
    },
    /// A frame exceeds the configured per-frame sample bound.
    FrameTooLarge {
        /// Number of samples supplied by the frame.
        actual: usize,
        /// Maximum accepted samples per frame.
        maximum: usize,
    },
    /// The resulting WAV cannot be represented by its 32-bit RIFF lengths.
    WaveTooLarge,
    /// The underlying bounded queue rejected its configuration.
    Queue(QueueError),
}

impl From<QueueError> for RecordingError {
    fn from(error: QueueError) -> (converted: Self) {
        RecordingError::Queue(error)
    }
}

impl vstd::std_specs::convert::FromSpecImpl<QueueError> for RecordingError {
    open spec fn obeys_from_spec() -> bool {
        true
    }

    open spec fn from_spec(error: QueueError) -> RecordingError {
        RecordingError::Queue(error)
    }
}

/// Stable counters and timestamp metadata for one bounded recording.
#[derive(Clone, Copy, Debug, PartialEq, Eq, Structural)]
pub struct RecordingMetadata {
    /// PCM sample rate.
    pub sample_rate: u32,
    /// PCM channel count.
    pub channels: u16,
    /// RTP timestamp of the oldest retained frame, if any.
    pub first_timestamp: Option<u32>,
    /// RTP timestamp of the newest retained frame, if any.
    pub last_timestamp: Option<u32>,
    /// Number of retained frames.
    pub frames: usize,
    /// Number of retained PCM samples.
    pub samples: u64,
    /// Number of frames discarded because the bound was reached.
    pub dropped_frames: u64,
}

/// A non-blocking, bounded PCM recorder.
///
/// Callers feed already-decoded [`AudioFrame`] values from the media path.
/// The recorder only retains a configured number of bounded frames, so slow
/// persistence cannot create an unbounded queue or block RTP processing.
#[derive(Debug)]
pub struct AudioRecorder {
    config: RecorderConfig,
    frames: BoundedMediaQueue<AudioFrame>,
    first_timestamp: Option<u32>,
    last_timestamp: Option<u32>,
    samples: u64,
    dropped_frames: u64,
}

/// A recorder as its contracts see it.
pub struct RecorderView {
    pub config: RecorderConfig,
    pub frames: QueueView<AudioFrame>,
    pub first_timestamp: Option<u32>,
    pub last_timestamp: Option<u32>,
    pub samples: u64,
    pub dropped_frames: u64,
}

impl View for AudioRecorder {
    type V = RecorderView;

    closed spec fn view(&self) -> RecorderView {
        RecorderView {
            config: self.config,
            frames: self.frames@,
            first_timestamp: self.first_timestamp,
            last_timestamp: self.last_timestamp,
            samples: self.samples,
            dropped_frames: self.dropped_frames,
        }
    }
}

pub open spec fn sat_add(a: u64, b: int) -> u64 {
    if a + b > u64::MAX {
        u64::MAX
    } else {
        (a + b) as u64
    }
}

pub open spec fn sat_sub(a: u64, b: int) -> u64 {
    if a - b < 0 {
        0
    } else {
        (a - b) as u64
    }
}

/// The number of samples held by a sequence of frames.
pub open spec fn total_samples(frames: Seq<AudioFrame>) -> nat
    decreases frames.len(),
{
    if frames.len() == 0 {
        0
    } else {
        total_samples(frames.drop_last()) + frames.last().samples@.len()
    }
}

/// What `push` does with a frame of the recording's rate and size: the
/// frame goes through the bounded queue; the sample counter follows what the
/// queue kept and lost, the drop counter what it lost, and the timestamps
/// name the oldest retained frame and the newest accepted one.
pub open spec fn push_frame_post(
    before: RecorderView,
    frame: AudioFrame,
    outcome: PushOutcome,
    after: RecorderView,
) -> bool {
    let count = frame.samples@.len() as int;
    let oldest = if before.frames.items.len() > 0 {
        before.frames.items[0].samples@.len() as int
    } else {
        0
    };
    &&& push_post(before.frames, frame, outcome, after.frames)
    &&& after.config == before.config
    &&& match outcome {
        PushOutcome::Accepted => {
            &&& after.samples == sat_add(before.samples, count)
            &&& after.dropped_frames == before.dropped_frames
            &&& after.first_timestamp == Some(after.frames.items[0].timestamp)
            &&& after.last_timestamp == Some(frame.timestamp)
        },
        PushOutcome::DroppedOldest => {
            &&& after.samples == sat_add(sat_sub(before.samples, oldest), count)
            &&& after.dropped_frames == crate::call_api::bump(before.dropped_frames)
            &&& after.first_timestamp == Some(after.frames.items[0].timestamp)
            &&& after.last_timestamp == Some(frame.timestamp)
        },
        PushOutcome::DroppedNewest => {
            &&& after.samples == before.samples
            &&& after.dropped_frames == crate::call_api::bump(before.dropped_frames)
            &&& after.first_timestamp == before.first_timestamp
            &&& after.last_timestamp == before.last_timestamp
        },
    }
}

/// Little-endian bytes of a 16-bit value.
pub open spec fn le16(value: u16) -> Seq<u8> {
    seq![(value % 256) as u8, (value / 256) as u8]
}

/// Little-endian bytes of a 32-bit value.
pub open spec fn le32(value: u32) -> Seq<u8> {
    seq![
        (value % 256) as u8,
        ((value / 256) % 256) as u8,
        ((value / 65536) % 256) as u8,
        (value / 16777216) as u8,
    ]
}

/// PCM16 little-endian bytes of samples.
pub open spec fn sample_bytes(samples: Seq<i16>) -> Seq<u8>
    decreases samples.len(),
{
    if samples.len() == 0 {
        Seq::empty()
    } else {
        sample_bytes(samples.drop_last()) + le16(samples.last() as u16)
    }
}

/// PCM16 little-endian bytes of every sample of every frame, oldest first.
pub open spec fn frame_bytes(frames: Seq<AudioFrame>) -> Seq<u8>
    decreases frames.len(),
{
    if frames.len() == 0 {
        Seq::empty()
    } else {
        frame_bytes(frames.drop_last()) + sample_bytes(frames.last().samples@)
    }
}

/// The 44-byte canonical PCM WAV header.
pub open spec fn wav_header(sample_rate: u32, channels: u16, data_len: u32) -> Seq<u8> {
    seq![82u8, 73, 70, 70] + le32((data_len + 36) as u32) + seq![87u8, 65, 86, 69, 102, 109, 116, 32]
        + le32(16) + le16(1) + le16(channels) + le32(sample_rate) + le32(
        (sample_rate * channels * 2) as u32,
    ) + le16((channels * 2) as u16) + le16(16) + seq![100u8, 97, 116, 97] + le32(data_len)
}

/// Whether the WAV of a recording fits its 32-bit length fields.
pub open spec fn wav_fits(view: RecorderView) -> bool {
    &&& 2 * view.samples + 36 <= u32::MAX
    &&& view.config.sample_rate * view.config.channels * 2 <= u32::MAX
    &&& view.config.channels * 2 <= u16::MAX
}

fn push_le16(output: &mut Vec<u8>, value: u16)
    ensures
        final(output)@ == old(output)@ + le16(value),
{
    output.push((value % 256) as u8);
    output.push((value / 256) as u8);
    assert(final(output)@ =~= old(output)@ + le16(value));
}

fn push_le32(output: &mut Vec<u8>, value: u32)
    ensures
        final(output)@ == old(output)@ + le32(value),
{
    output.push((value % 256) as u8);
    output.push(((value / 256) % 256) as u8);
    output.push(((value / 65536) % 256) as u8);
    output.push((value / 16777216) as u8);
    assert(final(output)@ =~= old(output)@ + le32(value));
}

fn push_bytes(output: &mut Vec<u8>, bytes: &[u8])
    ensures
        final(output)@ == old(output)@ + bytes@,
{
    let ghost start = output@;
    let mut index: usize = 0;
    while index < bytes.len()
        invariant
            index <= bytes@.len(),
            output@ == start + bytes@.take(index as int),
        decreases bytes.len() - index,
    {
        output.push(bytes[index]);
        proof {
            assert(bytes@.take(index + 1) =~= bytes@.take(index as int).push(bytes@[index as int]));
        }
        index = index + 1;
    }
    assert(bytes@.take(bytes@.len() as int) =~= bytes@);
}

impl AudioRecorder {
    /// Creates an empty recorder with validated bounds.
    pub fn new(config: RecorderConfig) -> (result: Result<Self, RecordingError>)
        ensures
            config_check(config) is Err ==> result == Err::<Self, RecordingError>(
                config_check(config)->Err_0,
            ),
            config_check(config) is Ok ==> (result matches Ok(recorder) && recorder@ == (
            RecorderView {
                config,
                frames: QueueView {
                    items: Seq::empty(),
                    capacity: config.max_frames,
                    policy: config.drop_policy,
                    pushed: 0,
                    dropped_oldest: 0,
                    dropped_newest: 0,
                },
                first_timestamp: None,
                last_timestamp: None,
                samples: 0,
                dropped_frames: 0,
            })),
    {
        let config = match config.validate() {
            Ok(config) => config,
            Err(error) => return Err(error),
        };
        let frames = match BoundedMediaQueue::new(config.max_frames, config.drop_policy) {
            Ok(frames) => frames,
            Err(error) => return Err(RecordingError::from(error)),
        };
        Ok(
            AudioRecorder {
                frames,
                config,
                first_timestamp: None,
                last_timestamp: None,
                samples: 0,
                dropped_frames: 0,
            },
        )
    }

    /// Returns the immutable recorder configuration.
    pub fn config(&self) -> (config: RecorderConfig)
        ensures
            config == self@.config,
    {
        self.config
    }

    /// Accepts one decoded PCM frame without blocking.
    ///
    /// A frame of another sample rate, or with more samples than the
    /// per-frame bound, is rejected and not retained.
    pub fn push(&mut self, frame: AudioFrame) -> (result: Result<PushOutcome, RecordingError>)
        ensures
            frame.sample_rate != old(self)@.config.sample_rate ==> result == Err::<
                PushOutcome,
                RecordingError,
            >(
                RecordingError::SampleRateMismatch {
                    expected: old(self)@.config.sample_rate,
                    actual: frame.sample_rate,
                },
            ) && final(self)@ == old(self)@,
            frame.sample_rate == old(self)@.config.sample_rate && frame.samples@.len()
                > old(self)@.config.max_samples_per_frame ==> result == Err::<
                PushOutcome,
                RecordingError,
            >(
                RecordingError::FrameTooLarge {
                    actual: frame.samples@.len() as usize,
                    maximum: old(self)@.config.max_samples_per_frame,
                },
            ) && final(self)@ == old(self)@,
            frame.sample_rate == old(self)@.config.sample_rate && frame.samples@.len()
                <= old(self)@.config.max_samples_per_frame ==> (result matches Ok(outcome)
                && push_frame_post(old(self)@, frame, outcome, final(self)@)),
    {
        if frame.sample_rate != self.config.sample_rate {
            return Err(
                RecordingError::SampleRateMismatch {
                    expected: self.config.sample_rate,
                    actual: frame.sample_rate,
                },
            );
        }
        if frame.samples.len() > self.config.max_samples_per_frame {
            return Err(
                RecordingError::FrameTooLarge {
                    actual: frame.samples.len(),
                    maximum: self.config.max_samples_per_frame,
                },
            );
        }
        let frame_samples = frame.samples.len() as u64;
        let oldest_samples = match self.frames.front() {
            Some(oldest) => oldest.samples.len() as u64,
            None => 0,
        };
        let timestamp = frame.timestamp;
        let outcome = self.frames.push(frame);
        match outcome {
            PushOutcome::Accepted => {
                self.samples = self.samples.saturating_add(frame_samples);
            },
            PushOutcome::DroppedOldest => {
                self.samples = self.samples.saturating_sub(oldest_samples).saturating_add(
                    frame_samples,
                );
                self.dropped_frames = self.dropped_frames.saturating_add(1);
            },
            PushOutcome::DroppedNewest => {
                self.dropped_frames = self.dropped_frames.saturating_add(1);
                return Ok(outcome);
            },
        }
        self.first_timestamp = match self.frames.front() {
            Some(oldest) => Some(oldest.timestamp),
            None => Some(timestamp),
        };
        self.last_timestamp = Some(timestamp);
        Ok(outcome)
    }

    /// Returns metadata for the retained recording frames.
    pub fn metadata(&self) -> (metadata: RecordingMetadata)
        ensures
            metadata == (RecordingMetadata {
                sample_rate: self@.config.sample_rate,
                channels: self@.config.channels,
                first_timestamp: self@.first_timestamp,
                last_timestamp: self@.last_timestamp,
                frames: self@.frames.items.len() as usize,
                samples: self@.samples,
                dropped_frames: self@.dropped_frames,
            }),
    {
        RecordingMetadata {
            sample_rate: self.config.sample_rate,
            channels: self.config.channels,
            first_timestamp: self.first_timestamp,
            last_timestamp: self.last_timestamp,
            frames: self.frames.len(),
            samples: self.samples,
            dropped_frames: self.dropped_frames,
        }
    }

    /// Returns whether no frames are currently retained.
    pub fn is_empty(&self) -> (empty: bool)
        ensures
            empty == (self@.frames.items.len() == 0),
    {
        self.frames.is_empty()
    }

    /// Serializes the retained decoded samples as a bounded PCM16 WAV file:
    /// the canonical 44-byte header whose data length is twice the sample
    /// counter, then every retained sample, oldest frame first.
    ///
    /// A recording whose lengths or rates overflow the 32-bit RIFF fields is
    /// refused with [`RecordingError::WaveTooLarge`].
    pub fn wav(&self) -> (result: Result<Vec<u8>, RecordingError>)
        ensures
            !wav_fits(self@) ==> result == Err::<Vec<u8>, RecordingError>(
                RecordingError::WaveTooLarge,
            ),
            wav_fits(self@) ==> (result matches Ok(bytes) && bytes@ == wav_header(
                self@.config.sample_rate,
                self@.config.channels,
                (2 * self@.samples) as u32,
            ) + frame_bytes(self@.frames.items)),
    {
        let data_bytes = match self.samples.checked_mul(2) {
            Some(bytes) => bytes,
            None => return Err(RecordingError::WaveTooLarge),
        };
        if data_bytes > 0xffff_ffff - 36 {
            return Err(RecordingError::WaveTooLarge);
        }
        let data_len = data_bytes as u32;
        let riff_len = data_len + 36;
        let byte_rate = match self.config.sample_rate.checked_mul(self.config.channels as u32) {
            Some(rate) => match rate.checked_mul(2) {
                Some(rate) => rate,
                None => return Err(RecordingError::WaveTooLarge),
            },
            None => return Err(RecordingError::WaveTooLarge),
        };
        let block_align = match self.config.channels.checked_mul(2) {
            Some(align) => align,
            None => return Err(RecordingError::WaveTooLarge),
        };
        let mut output: Vec<u8> = Vec::new();
        // "RIFF", "WAVEfmt " and "data" in ASCII.
        push_bytes(&mut output, &[82u8, 73, 70, 70]);
        push_le32(&mut output, riff_len);
        push_bytes(&mut output, &[87u8, 65, 86, 69, 102, 109, 116, 32]);
        push_le32(&mut output, 16);
        push_le16(&mut output, 1);
        push_le16(&mut output, self.config.channels);
        push_le32(&mut output, self.config.sample_rate);
        push_le32(&mut output, byte_rate);
        push_le16(&mut output, block_align);
        push_le16(&mut output, 16);
        push_bytes(&mut output, &[100u8, 97, 116, 97]);
        push_le32(&mut output, data_len);
        proof {
            assert(seq![82u8, 73, 70, 70] =~= [82u8, 73, 70, 70]@);
            assert(seq![87u8, 65, 86, 69, 102, 109, 116, 32] =~= [87u8, 65, 86, 69, 102, 109, 116, 32]@);
            assert(seq![100u8, 97, 116, 97] =~= [100u8, 97, 116, 97]@);
            assert(output@ =~= wav_header(self.config.sample_rate, self.config.channels, data_len));
        }
        let ghost header = output@;
        let frames = self.frames.iter();
        let ghost items = self@.frames.items;
        let mut index: usize = 0;
        while index < frames.len()
            invariant
                frames@.len() == items.len(),
                forall|i: int| 0 <= i < frames@.len() ==> *frames@[i] == items[i],
                index <= frames@.len(),
                output@ == header + frame_bytes(items.take(index as int)),
            decreases frames.len() - index,
        {
            let frame = frames[index];
            let ghost before = output@;
            let mut position: usize = 0;
            while position < frame.samples.len()
                invariant
                    position <= frame.samples@.len(),
                    output@ == before + sample_bytes(frame.samples@.take(position as int)),
                decreases frame.samples.len() - position,
            {
                push_le16(&mut output, frame.samples[position] as u16);
                proof {
                    let taken = frame.samples@.take(position + 1);
                    assert(taken.drop_last() =~= frame.samples@.take(position as int));
                }
                position = position + 1;
            }
            proof {
                assert(frame.samples@.take(frame.samples@.len() as int) =~= frame.samples@);
                let taken = items.take(index + 1);
                assert(taken.drop_last() =~= items.take(index as int));
                assert(taken.last() == items[index as int]);
            }
            index = index + 1;
        }
        proof {
            assert(items.take(items.len() as int) =~= items);
        }
        Ok(output)
    }
}

/// The sample counter keeps track of the retained samples: when it equals
/// the samples held by the retained frames before a push, it still does
/// after it, as long as that number fits the counter.
pub proof fn law_samples_track_retained_frames(
    before: RecorderView,
    frame: AudioFrame,
    outcome: PushOutcome,
    after: RecorderView,
)
    requires
        push_frame_post(before, frame, outcome, after),
        before.frames.capacity > 0,
        before.samples == total_samples(before.frames.items),
        total_samples(after.frames.items) <= u64::MAX,
    ensures
        after.samples == total_samples(after.frames.items),
{
    let items = before.frames.items;
    match outcome {
        PushOutcome::Accepted => {
            assert(after.frames.items.drop_last() =~= items);
        },
        PushOutcome::DroppedOldest => {
            let rest = items.subrange(1, items.len() as int);
            assert(after.frames.items.drop_last() =~= rest);
            lemma_total_drop_first(items);
        },
        PushOutcome::DroppedNewest => {},
    }
}

proof fn lemma_total_drop_first(frames: Seq<AudioFrame>)
    requires
        frames.len() > 0,
    ensures
        total_samples(frames) == frames[0].samples@.len() + total_samples(
            frames.subrange(1, frames.len() as int),
        ),
    decreases frames.len(),
{
    let rest = frames.subrange(1, frames.len() as int);
    if frames.len() > 1 {
        let shorter = frames.drop_last();
        lemma_total_drop_first(shorter);
        assert(shorter.subrange(1, shorter.len() as int) =~= rest.drop_last());
        assert(rest.last() == frames.last());
        assert(shorter[0] == frames[0]);
        assert(total_samples(rest) == total_samples(rest.drop_last()) + rest.last().samples@.len());
        assert(total_samples(frames) == total_samples(shorter) + frames.last().samples@.len());
    } else {
        assert(frames.drop_last().len() == 0);
        assert(rest.len() == 0);
        assert(frames.last() == frames[0]);
        assert(total_samples(rest) == 0);
        assert(total_samples(frames.drop_last()) == 0);
    }
}

} // verus!
