//! Bounds of the combined signaling and media smoke run.

use vstd::prelude::*;

use crate::smoke::media::{
    media_config_fault, validate_config as validate_media_config, MediaSmokeConfig,
    MediaSmokeError,
};
use crate::smoke::{
    signaling_config_fault, validate_config as validate_signaling_config, SignalingSmokeConfig,
    SignalingSmokeError,
};

verus! {

/// Bounds for one deterministic combined call/media smoke run.
#[derive(Clone, Copy, Debug, PartialEq, Eq, Structural)]
pub struct CombinedSmokeConfig {
    /// Total calls and paired media sessions to exercise.
    pub total_calls: usize,
    /// Maximum calls and media sessions retained in one batch.
    pub concurrent_calls: usize,
    /// Bidirectional RTP packets processed while each call is active.
    pub packets_per_call: usize,
    /// Maximum decoded frames retained in each AI-facing direction.
    pub queue_capacity: usize,
}

impl Default for CombinedSmokeConfig {
    fn default() -> (config: Self)
        ensures
            config == (CombinedSmokeConfig {
                total_calls: 64,
                concurrent_calls: 8,
                packets_per_call: 32,
                queue_capacity: 4,
            }),
    {
        CombinedSmokeConfig {
            total_calls: 64,
            concurrent_calls: 8,
            packets_per_call: 32,
            queue_capacity: 4,
        }
    }
}

/// Stage being executed when one indexed combined operation failed.
#[derive(Clone, Copy, Debug, PartialEq, Eq, Structural)]
pub enum CombinedSmokePhase {
    /// Creating an inbound INVITE transaction and call.
    Invite,
    /// Cancelling the active INVITE.
    Cancel,
    /// Releasing terminal signaling and media resources.
    Reclaim,
}

pub open spec fn combined_phase_name(phase: CombinedSmokePhase) -> Seq<char> {
    match phase {
        CombinedSmokePhase::Invite => "invite"@,
        CombinedSmokePhase::Cancel => "cancel"@,
        CombinedSmokePhase::Reclaim => "reclaim"@,
    }
}

impl CombinedSmokePhase {
    /// The phase's stable display name.
    pub fn as_str(&self) -> (name: &'static str)
        ensures
            name@ == combined_phase_name(*self),
    {
        match self {
            CombinedSmokePhase::Invite => "invite",
            CombinedSmokePhase::Cancel => "cancel",
            CombinedSmokePhase::Reclaim => "reclaim",
        }
    }
}

/// Failure to configure or complete a deterministic combined smoke run.
#[derive(Clone, Copy, Debug, PartialEq, Eq)]
pub enum CombinedSmokeError {
    /// A configured resource bound was zero, excessive, or overflowed.
    InvalidConfig(&'static str),
    /// A successful operation violated a combined-harness invariant.
    Invariant {
        /// One-based batch number.
        batch: usize,
        /// Stable description of the violated invariant.
        detail: &'static str,
    },
}

/// The signaling bounds of a combined run.
pub open spec fn combined_signaling(config: CombinedSmokeConfig) -> SignalingSmokeConfig {
    SignalingSmokeConfig { total_calls: config.total_calls, concurrent_calls: config.concurrent_calls }
}

/// The media bounds of a combined run: one media session per call.
pub open spec fn combined_media(config: CombinedSmokeConfig) -> MediaSmokeConfig {
    MediaSmokeConfig {
        total_streams: config.total_calls,
        concurrent_streams: config.concurrent_calls,
        packets_per_stream: config.packets_per_call,
        queue_capacity: config.queue_capacity,
    }
}

/// The first bound a combined configuration violates: its signaling bounds
/// first, then its media bounds.
pub open spec fn combined_config_fault(config: CombinedSmokeConfig) -> Option<Seq<char>> {
    match signaling_config_fault(combined_signaling(config)) {
        Some(fault) => Some(fault),
        None => media_config_fault(combined_media(config)),
    }
}

fn media_config(config: CombinedSmokeConfig) -> (media: MediaSmokeConfig)
    ensures
        media == combined_media(config),
{
    MediaSmokeConfig {
        total_streams: config.total_calls,
        concurrent_streams: config.concurrent_calls,
        packets_per_stream: config.packets_per_call,
        queue_capacity: config.queue_capacity,
    }
}

/// Checks a combined run against the signaling bounds of its calls and the
/// media bounds of its paired sessions.
pub fn validate_config(config: CombinedSmokeConfig) -> (result: Result<(), CombinedSmokeError>)
    ensures
        match result {
            Ok(()) => combined_config_fault(config) is None,
            Err(error) => error matches CombinedSmokeError::InvalidConfig(detail)
                && combined_config_fault(config) == Some(detail@),
        },
{
    let signaling = SignalingSmokeConfig {
        total_calls: config.total_calls,
        concurrent_calls: config.concurrent_calls,
    };
    match validate_signaling_config(signaling) {
        Ok(()) => {},
        Err(SignalingSmokeError::InvalidConfig(detail)) => {
            return Err(CombinedSmokeError::InvalidConfig(detail));
        },
        Err(SignalingSmokeError::Invariant { .. }) => {
            return Err(
                CombinedSmokeError::InvalidConfig(
                    "signaling validation returned an operational error",
                ),
            );
        },
    }
    match validate_media_config(media_config(config)) {
        Ok(()) => Ok(()),
        Err(MediaSmokeError::InvalidConfig(detail)) => Err(CombinedSmokeError::InvalidConfig(detail)),
        Err(MediaSmokeError::Invariant { .. }) => Err(
            CombinedSmokeError::InvalidConfig("media validation returned an operational error"),
        ),
    }
}

} // verus!
