//! Bounds of the bidirectional WebSocket-media smoke run.

use vstd::prelude::*;

verus! {

/// Largest number of WebSocket media sessions one run may exercise.
pub const MAX_STREAMS: usize = 1_000_000;

/// Largest number of frames one session may process.
pub const MAX_FRAMES_PER_STREAM: usize = 1_000_000;

/// Largest media and pending-write frame capacity of one session.
pub const MAX_QUEUE_CAPACITY: usize = 4_096;

/// Largest audio payload of one WebSocket frame.
pub const MAX_FRAME_BYTES: usize = 256;

/// Largest encoded WebSocket frame: payload plus the longest frame header.
pub const MAX_FRAME_WIRE_BYTES: usize = 270;

/// Bounds for one deterministic bidirectional WebSocket-media smoke run.
#[derive(Clone, Copy, Debug, PartialEq, Eq, Structural)]
pub struct WebSocketSmokeConfig {
    /// Total WebSocket media sessions to create, exercise, and release.
    pub total_streams: usize,
    /// Maximum WebSocket media sessions retained in one batch.
    pub concurrent_streams: usize,
    /// Bidirectional G.711 frames processed by each session.
    pub frames_per_stream: usize,
    /// Media and pending-write frame capacity assigned to each session.
    pub queue_capacity: usize,
}

impl Default for WebSocketSmokeConfig {
    fn default() -> (config: Self)
        ensures
            config == (WebSocketSmokeConfig {
                total_streams: 64,
                concurrent_streams: 8,
                frames_per_stream: 32,
                queue_capacity: 4,
            }),
    {
        WebSocketSmokeConfig {
            total_streams: 64,
            concurrent_streams: 8,
            frames_per_stream: 32,
            queue_capacity: 4,
        }
    }
}

/// Stage being executed when one indexed WebSocket-media operation failed.
#[derive(Clone, Copy, Debug, PartialEq, Eq, Structural)]
pub enum WebSocketSmokePhase {
    /// Constructing the media adapter and bounded transport.
    Create,
    /// Encoding or receiving a peer WebSocket frame.
    ReceiveWebSocket,
    /// Serializing peer-originated audio as RTP.
    SendRtp,
    /// Serializing or receiving RTP for WebSocket delivery.
    ReceiveRtp,
    /// Queueing, flushing, or decoding WebSocket output.
    SendWebSocket,
    /// Draining queues and checking final stream bounds.
    Reclaim,
}

pub open spec fn websocket_phase_name(phase: WebSocketSmokePhase) -> Seq<char> {
    match phase {
        WebSocketSmokePhase::Create => "create"@,
        WebSocketSmokePhase::ReceiveWebSocket => "receive WebSocket"@,
        WebSocketSmokePhase::SendRtp => "send RTP"@,
        WebSocketSmokePhase::ReceiveRtp => "receive RTP"@,
        WebSocketSmokePhase::SendWebSocket => "send WebSocket"@,
        WebSocketSmokePhase::Reclaim => "reclaim"@,
    }
}

impl WebSocketSmokePhase {
    /// The phase's stable display name.
    pub fn as_str(&self) -> (name: &'static str)
        ensures
            name@ == websocket_phase_name(*self),
    {
        match self {
            WebSocketSmokePhase::Create => "create",
            WebSocketSmokePhase::ReceiveWebSocket => "receive WebSocket",
            WebSocketSmokePhase::SendRtp => "send RTP",
            WebSocketSmokePhase::ReceiveRtp => "receive RTP",
            WebSocketSmokePhase::SendWebSocket => "send WebSocket",
            WebSocketSmokePhase::Reclaim => "reclaim",
        }
    }
}

/// Failure to configure or complete a deterministic WebSocket-media smoke run.
#[derive(Clone, Copy, Debug, PartialEq, Eq)]
pub enum WebSocketSmokeError {
    /// A configured resource bound was zero or excessive.
    InvalidConfig(&'static str),
    /// A successful operation violated a load-harness invariant.
    Invariant {
        /// One-based stream number within the complete run.
        stream_number: usize,
        /// Stable description of the violated invariant.
        detail: &'static str,
    },
}

/// The first bound a WebSocket configuration violates, by its message.
pub open spec fn websocket_config_fault(config: WebSocketSmokeConfig) -> Option<Seq<char>> {
    if config.total_streams == 0 {
        Some("total_streams must be non-zero"@)
    } else if config.total_streams > MAX_STREAMS {
        Some("total_streams exceeds the smoke safety bound"@)
    } else if config.concurrent_streams == 0 || config.concurrent_streams > config.total_streams {
        Some("concurrent_streams must be between 1 and total_streams"@)
    } else if config.frames_per_stream == 0 || config.frames_per_stream > MAX_FRAMES_PER_STREAM {
        Some("frames_per_stream must be within the smoke safety bound"@)
    } else if config.queue_capacity == 0 || config.queue_capacity > MAX_QUEUE_CAPACITY {
        Some("queue_capacity must be between 1 and 4,096"@)
    } else if config.total_streams * config.frames_per_stream > usize::MAX {
        Some("total frame count overflows"@)
    } else if config.queue_capacity * MAX_FRAME_WIRE_BYTES > usize::MAX {
        Some("pending write bytes overflow"@)
    } else {
        None
    }
}

/// Checks the bounds of a WebSocket smoke run: non-zero counts within the
/// safety bounds, no more concurrent than total streams, a queue capacity of
/// 1 to 4,096 frames, and representable frame and pending-write totals.
pub fn validate_config(config: WebSocketSmokeConfig) -> (result: Result<(), WebSocketSmokeError>)
    ensures
        match result {
            Ok(()) => websocket_config_fault(config) is None,
            Err(error) => error matches WebSocketSmokeError::InvalidConfig(detail)
                && websocket_config_fault(config) == Some(detail@),
        },
{
    if config.total_streams == 0 {
        return Err(WebSocketSmokeError::InvalidConfig("total_streams must be non-zero"));
    }
    if config.total_streams > MAX_STREAMS {
        return Err(
            WebSocketSmokeError::InvalidConfig("total_streams exceeds the smoke safety bound"),
        );
    }
    if config.concurrent_streams == 0 || config.concurrent_streams > config.total_streams {
        return Err(
            WebSocketSmokeError::InvalidConfig(
                "concurrent_streams must be between 1 and total_streams",
            ),
        );
    }
    if config.frames_per_stream == 0 || config.frames_per_stream > MAX_FRAMES_PER_STREAM {
        return Err(
            WebSocketSmokeError::InvalidConfig(
                "frames_per_stream must be within the smoke safety bound",
            ),
        );
    }
    if config.queue_capacity == 0 || config.queue_capacity > MAX_QUEUE_CAPACITY {
        return Err(
            WebSocketSmokeError::InvalidConfig("queue_capacity must be between 1 and 4,096"),
        );
    }
    if config.total_streams.checked_mul(config.frames_per_stream).is_none() {
        return Err(WebSocketSmokeError::InvalidConfig("total frame count overflows"));
    }
    if config.queue_capacity.checked_mul(MAX_FRAME_WIRE_BYTES).is_none() {
        return Err(WebSocketSmokeError::InvalidConfig("pending write bytes overflow"));
    }
    Ok(())
}

/// The masking key of a peer frame: the two low bytes of the stream number,
/// then the two low bytes of the frame number.
pub fn mask_key(stream_number: usize, frame_number: usize) -> (key: [u8; 4])
    ensures
        key@ == seq![
            (stream_number % 256) as u8,
            ((stream_number / 256) % 256) as u8,
            (frame_number % 256) as u8,
            ((frame_number / 256) % 256) as u8,
        ],
{
    let key = [
        (stream_number % 256) as u8,
        ((stream_number / 256) % 256) as u8,
        (frame_number % 256) as u8,
        ((frame_number / 256) % 256) as u8,
    ];
    proof {
        assert(key@ =~= seq![
            (stream_number % 256) as u8,
            ((stream_number / 256) % 256) as u8,
            (frame_number % 256) as u8,
            ((frame_number / 256) % 256) as u8,
        ]);
    }
    key
}

} // verus!
