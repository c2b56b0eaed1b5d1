//! Bounds and bookkeeping of the deterministic load and reclamation smoke
//! runs: which configurations a run accepts, how process observations are
//! combined, and how growth per unit of work is derived. The runs themselves
//! drive the signaling engine and media sessions.

pub mod combined;
pub mod media;
pub mod soak;
pub mod websocket;

use vstd::prelude::*;

verus! {

/// Bounds for one deterministic signaling/reclamation smoke run.
#[derive(Clone, Copy, Debug, PartialEq, Eq, Structural)]
pub struct SignalingSmokeConfig {
    /// Total calls to create, cancel, and reclaim.
    pub total_calls: usize,
    /// Maximum calls retained before the batch is cancelled and reclaimed.
    pub concurrent_calls: usize,
}

impl Default for SignalingSmokeConfig {
    fn default() -> (config: Self)
        ensures
            config.total_calls == 512,
            config.concurrent_calls == 32,
    {
        SignalingSmokeConfig { total_calls: 512, concurrent_calls: 32 }
    }
}

/// Operation being performed when the smoke harness failed.
#[derive(Clone, Copy, Debug, PartialEq, Eq, Structural)]
pub enum SmokePhase {
    /// Creating an inbound INVITE transaction and call.
    Invite,
    /// Cancelling an active INVITE.
    Cancel,
    /// Removing a terminal call and its signaling resources.
    Reclaim,
}

pub open spec fn smoke_phase_name(phase: SmokePhase) -> Seq<char> {
    match phase {
        SmokePhase::Invite => "invite"@,
        SmokePhase::Cancel => "cancel"@,
        SmokePhase::Reclaim => "reclaim"@,
    }
}

impl SmokePhase {
    /// The phase's stable display name.
    pub fn as_str(&self) -> (name: &'static str)
        ensures
            name@ == smoke_phase_name(*self),
    {
        match self {
            SmokePhase::Invite => "invite",
            SmokePhase::Cancel => "cancel",
            SmokePhase::Reclaim => "reclaim",
        }
    }
}

/// Failure to configure or complete a deterministic smoke run.
#[derive(Clone, Copy, Debug, PartialEq, Eq)]
pub enum SignalingSmokeError {
    /// A configured bound was zero or could not be represented safely.
    InvalidConfig(&'static str),
    /// A successful engine operation violated a harness invariant.
    Invariant {
        /// One-based batch number.
        batch: usize,
        /// Stable description of the violated invariant.
        detail: &'static str,
    },
}

/// The first bound a signaling configuration violates, by its message.
pub open spec fn signaling_config_fault(config: SignalingSmokeConfig) -> Option<Seq<char>> {
    if config.total_calls == 0 {
        Some("total_calls must be non-zero"@)
    } else if config.concurrent_calls == 0 {
        Some("concurrent_calls must be non-zero"@)
    } else {
        None
    }
}

/// Checks the bounds of a signaling smoke run: both counts must be non-zero.
pub fn validate_config(config: SignalingSmokeConfig) -> (result: Result<(), SignalingSmokeError>)
    ensures
        match result {
            Ok(()) => signaling_config_fault(config) is None,
            Err(error) => error matches SignalingSmokeError::InvalidConfig(detail)
                && signaling_config_fault(config) == Some(detail@),
        },
{
    if config.total_calls == 0 {
        return Err(SignalingSmokeError::InvalidConfig("total_calls must be non-zero"));
    }
    if config.concurrent_calls == 0 {
        return Err(SignalingSmokeError::InvalidConfig("concurrent_calls must be non-zero"));
    }
    Ok(())
}

/// Growth between two observations divided by the units of work, saturating
/// at zero when the later observation is smaller.
pub open spec fn growth_per_unit(before: Option<u64>, peak: Option<u64>, units: usize) -> Option<
    u64,
> {
    match (before, peak) {
        (Some(before), Some(peak)) => if units == 0 {
            None
        } else if peak >= before {
            Some(((peak - before) / (units as int)) as u64)
        } else {
            Some(0)
        },
        _ => None,
    }
}

/// Best-effort growth per unit of work; absent when either observation is
/// missing or no work was done.
pub fn per_unit_growth(before: Option<u64>, peak: Option<u64>, units: usize) -> (growth: Option<u64>)
    ensures
        growth == growth_per_unit(before, peak, units),
{
    if units == 0 {
        return None;
    }
    let units = units as u64;
    match (before, peak) {
        (Some(before), Some(peak)) => Some(peak.saturating_sub(before) / units),
        _ => None,
    }
}

} // verus!
