//! Bounds and process observations of the bidirectional media smoke run.

use vstd::prelude::*;

use crate::dtmf::{DtmfEvent, Notification};
use crate::jitter::{JitterBufferStats, JitterPushOutcome};
use crate::media::{MediaBridgeStats, PushOutcome};

verus! {

/// Largest number of media sessions one run may exercise.
pub const MAX_STREAMS: usize = 1_000_000;

/// Largest number of packets one session may process.
pub const MAX_PACKETS_PER_STREAM: usize = 1_000_000;

/// Largest decoded-frame capacity of each AI-facing direction.
pub const MAX_QUEUE_CAPACITY: usize = 4_096;

/// Bounds for one deterministic bidirectional media smoke run.
#[derive(Clone, Copy, Debug, PartialEq, Eq, Structural)]
pub struct MediaSmokeConfig {
    /// Total media sessions to create, exercise, and release.
    pub total_streams: usize,
    /// Maximum media sessions retained in one batch.
    pub concurrent_streams: usize,
    /// Bidirectional audio packets processed by each session.
    pub packets_per_stream: usize,
    /// Maximum decoded frames retained in each AI-facing direction.
    pub queue_capacity: usize,
}

impl Default for MediaSmokeConfig {
    fn default() -> (config: Self)
        ensures
            config == (MediaSmokeConfig {
                total_streams: 64,
                concurrent_streams: 8,
                packets_per_stream: 32,
                queue_capacity: 4,
            }),
    {
        MediaSmokeConfig {
            total_streams: 64,
            concurrent_streams: 8,
            packets_per_stream: 32,
            queue_capacity: 4,
        }
    }
}

/// Best-effort process observations captured around a smoke run.
#[derive(Clone, Copy, Debug, PartialEq, Eq, Structural)]
pub struct ProcessSample {
    /// Resident bytes, when available.
    pub resident_bytes: Option<u64>,
    /// Open file descriptors, when available.
    pub open_file_descriptors: Option<usize>,
    /// Process thread count, when available.
    pub threads: Option<usize>,
}

impl Default for ProcessSample {
    fn default() -> (sample: Self)
        ensures
            sample.resident_bytes is None,
            sample.open_file_descriptors is None,
            sample.threads is None,
    {
        ProcessSample { resident_bytes: None, open_file_descriptors: None, threads: None }
    }
}

/// The larger of two optional observations; a missing one gives way.
pub open spec fn max_observed(left: Option<int>, right: Option<int>) -> Option<int> {
    match (left, right) {
        (Some(left), Some(right)) => Some(if left >= right { left } else { right }),
        (Some(value), None) => Some(value),
        (None, Some(value)) => Some(value),
        (None, None) => None,
    }
}

pub open spec fn wide_u64(value: Option<u64>) -> Option<int> {
    match value {
        Some(value) => Some(value as int),
        None => None,
    }
}

pub open spec fn wide_usize(value: Option<usize>) -> Option<int> {
    match value {
        Some(value) => Some(value as int),
        None => None,
    }
}

fn max_optional_u64(left: Option<u64>, right: Option<u64>) -> (larger: Option<u64>)
    ensures
        wide_u64(larger) == max_observed(wide_u64(left), wide_u64(right)),
{
    match (left, right) {
        (Some(left), Some(right)) => Some(if left >= right { left } else { right }),
        (Some(value), None) => Some(value),
        (None, Some(value)) => Some(value),
        (None, None) => None,
    }
}

fn max_optional_usize(left: Option<usize>, right: Option<usize>) -> (larger: Option<usize>)
    ensures
        wide_usize(larger) == max_observed(wide_usize(left), wide_usize(right)),
{
    match (left, right) {
        (Some(left), Some(right)) => Some(if left >= right { left } else { right }),
        (Some(value), None) => Some(value),
        (None, Some(value)) => Some(value),
        (None, None) => None,
    }
}

impl ProcessSample {
    /// Raises each observation to the larger of itself and `sample`'s.
    pub fn merge_peak(&mut self, sample: Self)
        ensures
            wide_u64(final(self).resident_bytes) == max_observed(
                wide_u64(old(self).resident_bytes),
                wide_u64(sample.resident_bytes),
            ),
            wide_usize(final(self).open_file_descriptors) == max_observed(
                wide_usize(old(self).open_file_descriptors),
                wide_usize(sample.open_file_descriptors),
            ),
            wide_usize(final(self).threads) == max_observed(
                wide_usize(old(self).threads),
                wide_usize(sample.threads),
            ),
    {
        self.resident_bytes = max_optional_u64(self.resident_bytes, sample.resident_bytes);
        self.open_file_descriptors = max_optional_usize(
            self.open_file_descriptors,
            sample.open_file_descriptors,
        );
        self.threads = max_optional_usize(self.threads, sample.threads);
    }
}

/// Stage being executed when one indexed media operation failed.
#[derive(Clone, Copy, Debug, PartialEq, Eq, Structural)]
pub enum MediaSmokePhase {
    /// Constructing a bounded media session.
    Create,
    /// Serializing or receiving inbound RTP.
    Receive,
    /// Releasing fixed-delay inbound audio.
    Playout,
    /// Queueing or serializing AI-originated audio.
    Send,
    /// Draining queues and checking final session bounds.
    Reclaim,
}

pub open spec fn media_phase_name(phase: MediaSmokePhase) -> Seq<char> {
    match phase {
        MediaSmokePhase::Create => "create"@,
        MediaSmokePhase::Receive => "receive"@,
        MediaSmokePhase::Playout => "playout"@,
        MediaSmokePhase::Send => "send"@,
        MediaSmokePhase::Reclaim => "reclaim"@,
    }
}

impl MediaSmokePhase {
    /// The phase's stable display name.
    pub fn as_str(&self) -> (name: &'static str)
        ensures
            name@ == media_phase_name(*self),
    {
        match self {
            MediaSmokePhase::Create => "create",
            MediaSmokePhase::Receive => "receive",
            MediaSmokePhase::Playout => "playout",
            MediaSmokePhase::Send => "send",
            MediaSmokePhase::Reclaim => "reclaim",
        }
    }
}

/// Failure to configure or complete a deterministic media smoke run.
#[derive(Clone, Copy, Debug, PartialEq, Eq)]
pub enum MediaSmokeError {
    /// A configured resource bound was zero or excessive.
    InvalidConfig(&'static str),
    /// A successful operation violated a load-harness invariant.
    Invariant {
        /// One-based stream number within the complete run.
        stream_number: usize,
        /// Stable description of the violated invariant.
        detail: &'static str,
    },
}

/// The first bound a media configuration violates, by its message.
pub open spec fn media_config_fault(config: MediaSmokeConfig) -> Option<Seq<char>> {
    if config.total_streams == 0 {
        Some("total_streams must be non-zero"@)
    } else if config.total_streams > MAX_STREAMS {
        Some("total_streams exceeds the smoke safety bound"@)
    } else if config.concurrent_streams == 0 {
        Some("concurrent_streams must be non-zero"@)
    } else if config.concurrent_streams > config.total_streams {
        Some("concurrent_streams cannot exceed total_streams"@)
    } else if config.packets_per_stream == 0 {
        Some("packets_per_stream must be non-zero"@)
    } else if config.packets_per_stream > MAX_PACKETS_PER_STREAM {
        Some("packets_per_stream exceeds the smoke safety bound"@)
    } else if config.queue_capacity == 0 || config.queue_capacity > MAX_QUEUE_CAPACITY {
        Some("queue_capacity must be between 1 and 4,096"@)
    } else if config.total_streams * config.packets_per_stream > usize::MAX {
        Some("total packet count overflows"@)
    } else {
        None
    }
}

/// Checks the bounds of a media smoke run: non-zero counts within the safety
/// bounds, no more concurrent than total streams, a queue capacity of 1 to
/// 4,096 frames, and a representable total packet count.
pub fn validate_config(config: MediaSmokeConfig) -> (result: Result<(), MediaSmokeError>)
    ensures
        match result {
            Ok(()) => media_config_fault(config) is None,
            Err(error) => error matches MediaSmokeError::InvalidConfig(detail)
                && media_config_fault(config) == Some(detail@),
        },
{
    if config.total_streams == 0 {
        return Err(MediaSmokeError::InvalidConfig("total_streams must be non-zero"));
    }
    if config.total_streams > MAX_STREAMS {
        return Err(MediaSmokeError::InvalidConfig("total_streams exceeds the smoke safety bound"));
    }
    if config.concurrent_streams == 0 {
        return Err(MediaSmokeError::InvalidConfig("concurrent_streams must be non-zero"));
    }
    if config.concurrent_streams > config.total_streams {
        return Err(MediaSmokeError::InvalidConfig("concurrent_streams cannot exceed total_streams"));
    }
    if config.packets_per_stream == 0 {
        return Err(MediaSmokeError::InvalidConfig("packets_per_stream must be non-zero"));
    }
    if config.packets_per_stream > MAX_PACKETS_PER_STREAM {
        return Err(
            MediaSmokeError::InvalidConfig("packets_per_stream exceeds the smoke safety bound"),
        );
    }
    if config.queue_capacity == 0 || config.queue_capacity > MAX_QUEUE_CAPACITY {
        return Err(MediaSmokeError::InvalidConfig("queue_capacity must be between 1 and 4,096"));
    }
    if config.total_streams.checked_mul(config.packets_per_stream).is_none() {
        return Err(MediaSmokeError::InvalidConfig("total packet count overflows"));
    }
    Ok(())
}

/// Decoded audio samples per smoke packet.
pub const AUDIO_SAMPLES: usize = 160;

/// What a media session reports for one received or played-out RTP packet.
#[derive(Clone, Copy, Debug, PartialEq, Eq)]
pub enum ReceivedMedia {
    /// An audio payload was decoded and offered to the AI queue.
    Audio {
        /// Queue backpressure result.
        queued: PushOutcome,
        /// RTP timestamp carried by the packet.
        timestamp: u32,
        /// Number of decoded PCM samples.
        samples: usize,
    },
    /// An audio payload was handed to the jitter buffer for later playout.
    AudioBuffered {
        /// What the jitter buffer did with it.
        outcome: JitterPushOutcome,
        /// RTP timestamp carried by the packet.
        timestamp: u32,
    },
    /// A telephone-event payload was deduplicated and optionally queued.
    Dtmf {
        /// Exact validated telephone event carried by this RTP packet.
        event: DtmfEvent,
        /// RTP marker bit carried by this packet.
        marker: bool,
        /// RTP timestamp carried by this packet.
        timestamp: u32,
        /// Application notification, if this packet changed DTMF state.
        notification: Option<Notification>,
        /// Whether the notification was retained in the bounded queue.
        queued: bool,
    },
}

/// Depths and retained payload seen on one session after one packet.
#[derive(Clone, Copy, Debug, PartialEq, Eq, Structural)]
pub struct MediaObservation {
    /// Decoded frames waiting for the AI.
    pub ai_queue_depth: usize,
    /// Packets retained by the jitter buffer.
    pub jitter_depth: usize,
    /// Estimated audio payload bytes retained by the session.
    pub retained_payload_bytes: usize,
}

pub open spec fn sat(value: int) -> usize {
    if value > usize::MAX {
        usize::MAX
    } else {
        value as usize
    }
}

fn sat_mul(a: usize, b: usize) -> (product: usize)
    ensures
        product == sat(a * b),
{
    match a.checked_mul(b) {
        Some(product) => product,
        None => usize::MAX,
    }
}

fn sat_add(a: usize, b: usize) -> (sum: usize)
    ensures
        sum == sat(a + b),
{
    match a.checked_add(b) {
        Some(sum) => sum,
        None => usize::MAX,
    }
}

pub open spec fn buffered_depth_of(jitter: Option<JitterBufferStats>) -> usize {
    match jitter {
        Some(stats) => stats.depth,
        None => 0,
    }
}

/// What one smoke packet round trip must show, and what it observes: the
/// received packet is retained by jitter playout, is due at its playout
/// deadline, the AI's reply queues without loss and goes out as RTP; then the
/// AI queue depth, the larger jitter depth, and the retained payload (two
/// bytes per queued sample, one per buffered sample) are observed.
pub open spec fn packet_outcome(
    stream_number: usize,
    received: ReceivedMedia,
    buffered: Option<JitterBufferStats>,
    played: Option<ReceivedMedia>,
    outbound: PushOutcome,
    sent: bool,
    bridge: MediaBridgeStats,
    jitter: Option<JitterBufferStats>,
) -> Result<MediaObservation, MediaSmokeError> {
    let buffered_depth = buffered_depth_of(buffered);
    if !(received matches ReceivedMedia::AudioBuffered { outcome: JitterPushOutcome::Accepted, .. }) {
        Err(MediaSmokeError::Invariant {
            stream_number,
            detail: "valid ordered RTP packet was not retained by jitter playout",
        })
    } else if !(played matches Some(ReceivedMedia::Audio { .. })) {
        Err(MediaSmokeError::Invariant {
            stream_number,
            detail: "retained RTP packet was not due at its fixed playout deadline",
        })
    } else if outbound != PushOutcome::Accepted {
        Err(MediaSmokeError::Invariant {
            stream_number,
            detail: "immediately drained outbound AI queue rejected audio",
        })
    } else if !sent {
        Err(MediaSmokeError::Invariant {
            stream_number,
            detail: "queued AI audio produced no outbound RTP packet",
        })
    } else {
        let jitter_depth = match jitter {
            Some(stats) => if stats.depth >= buffered_depth {
                stats.depth
            } else {
                buffered_depth
            },
            None => buffered_depth,
        };
        let retained_frames = sat(bridge.to_ai.depth + bridge.from_ai.depth);
        Ok(MediaObservation {
            ai_queue_depth: bridge.to_ai.depth,
            jitter_depth,
            retained_payload_bytes: sat(
                sat(sat(retained_frames * AUDIO_SAMPLES) * 2) + sat(buffered_depth * AUDIO_SAMPLES),
            ),
        })
    }
}

/// Checks one smoke packet round trip and observes the session after it:
/// `received` is what receiving the packet gave and `buffered` the jitter
/// statistics right after; `played` is what playout at the deadline gave,
/// `outbound` the AI queue's answer to the reply frame, `sent` whether an RTP
/// packet went out, and `bridge`/`jitter` the statistics at the end.
pub fn packet_observation(
    stream_number: usize,
    received: ReceivedMedia,
    buffered: Option<JitterBufferStats>,
    played: Option<ReceivedMedia>,
    outbound: PushOutcome,
    sent: bool,
    bridge: MediaBridgeStats,
    jitter: Option<JitterBufferStats>,
) -> (observation: Result<MediaObservation, MediaSmokeError>)
    ensures
        observation == packet_outcome(
            stream_number,
            received,
            buffered,
            played,
            outbound,
            sent,
            bridge,
            jitter,
        ),
{
    match received {
        ReceivedMedia::AudioBuffered { outcome: JitterPushOutcome::Accepted, .. } => {},
        _ => {
            return Err(
                MediaSmokeError::Invariant {
                    stream_number,
                    detail: "valid ordered RTP packet was not retained by jitter playout",
                },
            );
        },
    }
    let buffered_depth = match buffered {
        Some(stats) => stats.depth,
        None => 0,
    };
    match played {
        Some(ReceivedMedia::Audio { .. }) => {},
        _ => {
            return Err(
                MediaSmokeError::Invariant {
                    stream_number,
                    detail: "retained RTP packet was not due at its fixed playout deadline",
                },
            );
        },
    }
    match outbound {
        PushOutcome::Accepted => {},
        _ => {
            return Err(
                MediaSmokeError::Invariant {
                    stream_number,
                    detail: "immediately drained outbound AI queue rejected audio",
                },
            );
        },
    }
    if !sent {
        return Err(
            MediaSmokeError::Invariant {
                stream_number,
                detail: "queued AI audio produced no outbound RTP packet",
            },
        );
    }
    let jitter_depth = match jitter {
        Some(stats) => if stats.depth >= buffered_depth {
            stats.depth
        } else {
            buffered_depth
        },
        None => buffered_depth,
    };
    let retained_frames = sat_add(bridge.to_ai.depth, bridge.from_ai.depth);
    let queued_bytes = sat_mul(sat_mul(retained_frames, AUDIO_SAMPLES), 2);
    let buffered_bytes = sat_mul(buffered_depth, AUDIO_SAMPLES);
    Ok(
        MediaObservation {
            ai_queue_depth: bridge.to_ai.depth,
            jitter_depth,
            retained_payload_bytes: sat_add(queued_bytes, buffered_bytes),
        },
    )
}

/// What a drained session lost over its lifetime.
#[derive(Clone, Copy, Debug, PartialEq, Eq, Structural)]
pub struct ReclaimedMedia {
    /// Decoded frames the AI queue evicted or refused.
    pub ai_queue_drops: u64,
    /// Packets the jitter buffer refused as duplicate, late or overflowing.
    pub jitter_drops: u64,
}

pub open spec fn sat64(value: int) -> u64 {
    if value > u64::MAX {
        u64::MAX
    } else {
        value as u64
    }
}

/// What reclaiming a drained session gives: its jitter statistics must exist
/// and every queue must be empty; then its drop counters, summed saturating.
pub open spec fn reclaim_outcome(
    stream_number: usize,
    bridge: MediaBridgeStats,
    jitter: Option<JitterBufferStats>,
) -> Result<ReclaimedMedia, MediaSmokeError> {
    match jitter {
        None => Err(MediaSmokeError::Invariant {
            stream_number,
            detail: "configured jitter stats were absent",
        }),
        Some(stats) => if bridge.to_ai.depth != 0 || bridge.from_ai.depth != 0 || stats.depth != 0 {
            Err(MediaSmokeError::Invariant {
                stream_number,
                detail: "media queues were not empty at reclamation",
            })
        } else {
            Ok(ReclaimedMedia {
                ai_queue_drops: sat64(bridge.to_ai.dropped_oldest + bridge.to_ai.dropped_newest),
                jitter_drops: sat64(
                    sat64(stats.dropped_duplicate + stats.dropped_late) + stats.dropped_overflow,
                ),
            })
        },
    }
}

/// Checks that a drained session holds nothing and reports what it dropped.
pub fn reclaimed_media(
    stream_number: usize,
    bridge: MediaBridgeStats,
    jitter: Option<JitterBufferStats>,
) -> (reclaimed: Result<ReclaimedMedia, MediaSmokeError>)
    ensures
        reclaimed == reclaim_outcome(stream_number, bridge, jitter),
{
    let stats = match jitter {
        Some(stats) => stats,
        None => {
            return Err(
                MediaSmokeError::Invariant {
                    stream_number,
                    detail: "configured jitter stats were absent",
                },
            );
        },
    };
    if bridge.to_ai.depth != 0 || bridge.from_ai.depth != 0 || stats.depth != 0 {
        return Err(
            MediaSmokeError::Invariant {
                stream_number,
                detail: "media queues were not empty at reclamation",
            },
        );
    }
    Ok(
        ReclaimedMedia {
            ai_queue_drops: bridge.to_ai.dropped_oldest.saturating_add(bridge.to_ai.dropped_newest),
            jitter_drops: stats.dropped_duplicate.saturating_add(stats.dropped_late).saturating_add(
                stats.dropped_overflow,
            ),
        },
    )
}

} // verus!
