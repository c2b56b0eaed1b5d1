//! Bounds and stability checks of the mixed call-lifecycle soak run.

use vstd::prelude::*;

use crate::call_core::CallState;
use crate::media_time::MediaTime;
use crate::smoke::media::{
    media_config_fault, sat64, validate_config as validate_media_config, MediaSmokeConfig,
    MediaSmokeError, ProcessSample, ReclaimedMedia,
};

verus! {

/// Largest number of minimum cycles one soak may ask for.
pub const MAX_MINIMUM_CYCLES: usize = 1_000_000;

/// Longest minimum wall duration one soak may ask for: 24 hours, in nanoseconds.
pub const MAX_MINIMUM_DURATION_NANOS: u128 = 86_400_000_000_000;

/// Bounds for one repeated mixed-lifecycle soak run.
#[derive(Clone, Copy, Debug, PartialEq, Eq, Structural)]
pub struct LifecycleSoakConfig {
    /// Minimum complete lifecycle cycles to execute.
    pub minimum_cycles: usize,
    /// Minimum wall duration; the run continues until both minima are met.
    pub minimum_duration: MediaTime,
    /// Calls created together in every cycle.
    pub calls_per_cycle: usize,
    /// Bidirectional RTP packets processed by every answered call.
    pub packets_per_answered_call: usize,
    /// Maximum decoded frames retained in each AI-facing direction.
    pub queue_capacity: usize,
    /// Initial cycles excluded from resident-memory stability observations.
    pub warmup_cycles: usize,
    /// Maximum allowed post-warmup resident-memory range.
    pub max_resident_drift_bytes: u64,
    /// Whether to fail on process-wide descriptor or thread-count drift.
    pub enforce_process_count_stability: bool,
}

impl Default for LifecycleSoakConfig {
    fn default() -> (config: Self)
        ensures
            config.minimum_cycles == 8,
            config.minimum_duration@ == 0,
            config.calls_per_cycle == 12,
            config.packets_per_answered_call == 8,
            config.queue_capacity == 4,
            config.warmup_cycles == 2,
            config.max_resident_drift_bytes == 16 * 1024 * 1024,
            config.enforce_process_count_stability,
    {
        LifecycleSoakConfig {
            minimum_cycles: 8,
            minimum_duration: MediaTime::zero(),
            calls_per_cycle: 12,
            packets_per_answered_call: 8,
            queue_capacity: 4,
            warmup_cycles: 2,
            max_resident_drift_bytes: 16 * 1024 * 1024,
            enforce_process_count_stability: true,
        }
    }
}

/// Call-engine operation being performed when the soak failed.
#[derive(Clone, Copy, Debug, PartialEq, Eq, Structural)]
pub enum LifecycleSoakPhase {
    /// Creating an inbound INVITE and call.
    Create,
    /// Answering an inbound call.
    Answer,
    /// Acknowledging a final INVITE response.
    Acknowledge,
    /// Rejecting an inbound call.
    Reject,
    /// Cancelling an inbound call before answer.
    Cancel,
    /// Disconnecting an answered call with BYE.
    Disconnect,
    /// Removing a terminal call and retained signaling resources.
    Reclaim,
}

pub open spec fn soak_phase_name(phase: LifecycleSoakPhase) -> Seq<char> {
    match phase {
        LifecycleSoakPhase::Create => "create"@,
        LifecycleSoakPhase::Answer => "answer"@,
        LifecycleSoakPhase::Acknowledge => "acknowledge"@,
        LifecycleSoakPhase::Reject => "reject"@,
        LifecycleSoakPhase::Cancel => "cancel"@,
        LifecycleSoakPhase::Disconnect => "disconnect"@,
        LifecycleSoakPhase::Reclaim => "reclaim"@,
    }
}

impl LifecycleSoakPhase {
    /// The phase's stable display name.
    pub fn as_str(&self) -> (name: &'static str)
        ensures
            name@ == soak_phase_name(*self),
    {
        match self {
            LifecycleSoakPhase::Create => "create",
            LifecycleSoakPhase::Answer => "answer",
            LifecycleSoakPhase::Acknowledge => "acknowledge",
            LifecycleSoakPhase::Reject => "reject",
            LifecycleSoakPhase::Cancel => "cancel",
            LifecycleSoakPhase::Disconnect => "disconnect",
            LifecycleSoakPhase::Reclaim => "reclaim",
        }
    }
}

/// Failure to configure or complete a mixed-lifecycle soak run.
#[derive(Clone, Copy, Debug, PartialEq, Eq)]
pub enum LifecycleSoakError {
    /// A configured resource or duration bound was invalid.
    InvalidConfig(&'static str),
    /// A successful operation violated a lifecycle invariant.
    Invariant {
        /// One-based lifecycle cycle.
        cycle: usize,
        /// Stable description of the violated invariant.
        detail: &'static str,
    },
    /// A process resource did not return to its initial stable count.
    ResourceDrift {
        /// One-based lifecycle cycle.
        cycle: usize,
        /// Stable resource name.
        resource: &'static str,
        /// Observation before the first cycle.
        before: usize,
        /// Observation after the reclaimed cycle.
        after: usize,
    },
    /// Post-warmup resident memory exceeded its configured stable range.
    ResidentDrift {
        /// Observed maximum-minus-minimum resident bytes.
        observed_bytes: u64,
        /// Configured maximum resident-memory range.
        maximum_bytes: u64,
    },
}

/// The media bounds of a soak cycle: every call of a cycle has a session.
pub open spec fn soak_media(config: LifecycleSoakConfig) -> MediaSmokeConfig {
    MediaSmokeConfig {
        total_streams: config.calls_per_cycle,
        concurrent_streams: config.calls_per_cycle,
        packets_per_stream: config.packets_per_answered_call,
        queue_capacity: config.queue_capacity,
    }
}

/// The first bound a soak configuration violates, by its message.
pub open spec fn soak_config_fault(config: LifecycleSoakConfig) -> Option<Seq<char>> {
    if config.minimum_cycles == 0 || config.minimum_cycles > MAX_MINIMUM_CYCLES {
        Some("minimum_cycles must be between 1 and 1,000,000"@)
    } else if config.minimum_duration@ > MAX_MINIMUM_DURATION_NANOS {
        Some("minimum_duration exceeds the 24-hour safety bound"@)
    } else if config.calls_per_cycle < 3 {
        Some("calls_per_cycle must be at least 3 to cover every lifecycle"@)
    } else if config.warmup_cycles >= config.minimum_cycles {
        Some("warmup_cycles must be less than minimum_cycles"@)
    } else if config.max_resident_drift_bytes == 0 {
        Some("max_resident_drift_bytes must be non-zero"@)
    } else if config.minimum_cycles * config.calls_per_cycle > usize::MAX {
        Some("minimum call count overflows"@)
    } else {
        media_config_fault(soak_media(config))
    }
}

fn media_config(config: LifecycleSoakConfig) -> (media: MediaSmokeConfig)
    ensures
        media == soak_media(config),
{
    MediaSmokeConfig {
        total_streams: config.calls_per_cycle,
        concurrent_streams: config.calls_per_cycle,
        packets_per_stream: config.packets_per_answered_call,
        queue_capacity: config.queue_capacity,
    }
}

/// Checks the bounds of a soak: 1 to 1,000,000 minimum cycles, at most 24
/// hours of minimum duration, at least one call per lifecycle kind in every
/// cycle, fewer warm-up cycles than minimum cycles, a non-zero resident drift
/// bound, a representable call count, and media bounds for one cycle.
pub fn validate_config(config: LifecycleSoakConfig) -> (result: Result<(), LifecycleSoakError>)
    ensures
        match result {
            Ok(()) => soak_config_fault(config) is None,
            Err(error) => error matches LifecycleSoakError::InvalidConfig(detail)
                && soak_config_fault(config) == Some(detail@),
        },
{
    if config.minimum_cycles == 0 || config.minimum_cycles > MAX_MINIMUM_CYCLES {
        return Err(
            LifecycleSoakError::InvalidConfig("minimum_cycles must be between 1 and 1,000,000"),
        );
    }
    if config.minimum_duration.as_nanos() > MAX_MINIMUM_DURATION_NANOS {
        return Err(
            LifecycleSoakError::InvalidConfig("minimum_duration exceeds the 24-hour safety bound"),
        );
    }
    if config.calls_per_cycle < 3 {
        return Err(
            LifecycleSoakError::InvalidConfig(
                "calls_per_cycle must be at least 3 to cover every lifecycle",
            ),
        );
    }
    if config.warmup_cycles >= config.minimum_cycles {
        return Err(
            LifecycleSoakError::InvalidConfig("warmup_cycles must be less than minimum_cycles"),
        );
    }
    if config.max_resident_drift_bytes == 0 {
        return Err(LifecycleSoakError::InvalidConfig("max_resident_drift_bytes must be non-zero"));
    }
    if config.minimum_cycles.checked_mul(config.calls_per_cycle).is_none() {
        return Err(LifecycleSoakError::InvalidConfig("minimum call count overflows"));
    }
    match validate_media_config(media_config(config)) {
        Ok(()) => Ok(()),
        Err(MediaSmokeError::InvalidConfig(detail)) => Err(LifecycleSoakError::InvalidConfig(detail)),
        Err(MediaSmokeError::Invariant { .. }) => Err(
            LifecycleSoakError::InvalidConfig("media validation returned an operational error"),
        ),
    }
}

/// Fails when both observations of a process-wide count are present and
/// differ; a missing observation is no evidence of drift.
pub fn ensure_optional_count_stable(
    cycle: usize,
    resource: &'static str,
    before: Option<usize>,
    after: Option<usize>,
) -> (result: Result<(), LifecycleSoakError>)
    ensures
        match (before, after) {
            (Some(b), Some(a)) => if b != a {
                result == Err::<(), LifecycleSoakError>(
                    LifecycleSoakError::ResourceDrift { cycle, resource, before: b, after: a },
                )
            } else {
                result is Ok
            },
            _ => result is Ok,
        },
{
    if let (Some(before), Some(after)) = (before, after) {
        if before != after {
            return Err(LifecycleSoakError::ResourceDrift { cycle, resource, before, after });
        }
    }
    Ok(())
}

/// Fails when the open descriptors or the thread count after a cycle differ
/// from their counts before the first cycle, descriptors checked first.
pub fn ensure_stable_process_counts(cycle: usize, before: ProcessSample, sample: ProcessSample) -> (result:
    Result<(), LifecycleSoakError>)
    ensures
        match (before.open_file_descriptors, sample.open_file_descriptors) {
            (Some(b), Some(a)) if b != a => result == Err::<(), LifecycleSoakError>(
                LifecycleSoakError::ResourceDrift {
                    cycle,
                    resource: "file descriptors",
                    before: b,
                    after: a,
                },
            ),
            _ => match (before.threads, sample.threads) {
                (Some(b), Some(a)) if b != a => result == Err::<(), LifecycleSoakError>(
                    LifecycleSoakError::ResourceDrift { cycle, resource: "threads", before: b, after: a },
                ),
                _ => result is Ok,
            },
        },
{
    match ensure_optional_count_stable(
        cycle,
        "file descriptors",
        before.open_file_descriptors,
        sample.open_file_descriptors,
    ) {
        Ok(()) => {},
        Err(error) => return Err(error),
    }
    ensure_optional_count_stable(cycle, "threads", before.threads, sample.threads)
}

/// The range between two observations, saturating at zero; absent when
/// either is missing.
pub fn optional_range(minimum: Option<u64>, maximum: Option<u64>) -> (range: Option<u64>)
    ensures
        range == match (minimum, maximum) {
            (Some(minimum), Some(maximum)) => Some(
                if maximum >= minimum {
                    (maximum - minimum) as u64
                } else {
                    0u64
                },
            ),
            _ => None::<u64>,
        },
{
    match (minimum, maximum) {
        (Some(minimum), Some(maximum)) => Some(maximum.saturating_sub(minimum)),
        _ => None,
    }
}

/// How a soak call of a cycle ends.
#[derive(Clone, Copy, Debug, PartialEq, Eq, Structural)]
pub enum LifecycleOutcome {
    /// Answered, carried media, and disconnected with BYE.
    Answered,
    /// Rejected with a final error response.
    Rejected,
    /// Cancelled before it was answered.
    Cancelled,
}

/// The lifecycle the call at `offset` within a cycle follows: the three kinds
/// in turn.
pub open spec fn outcome_at(offset: usize) -> LifecycleOutcome {
    if offset % 3 == 0 {
        LifecycleOutcome::Answered
    } else if offset % 3 == 1 {
        LifecycleOutcome::Rejected
    } else {
        LifecycleOutcome::Cancelled
    }
}

impl LifecycleOutcome {
    /// The lifecycle of the call at `offset` within a cycle.
    pub fn for_offset(offset: usize) -> (outcome: Self)
        ensures
            outcome == outcome_at(offset),
    {
        match offset % 3 {
            0 => LifecycleOutcome::Answered,
            1 => LifecycleOutcome::Rejected,
            _ => LifecycleOutcome::Cancelled,
        }
    }
}

/// A cycle of at least three calls, the least a valid soak accepts, exercises
/// every lifecycle: some call is answered, some rejected and some cancelled.
pub proof fn law_cycles_cover_every_lifecycle(calls_per_cycle: usize, outcome: LifecycleOutcome)
    requires
        calls_per_cycle >= 3,
    ensures
        exists|offset: usize| offset < calls_per_cycle && #[trigger] outcome_at(offset) == outcome,
{
    match outcome {
        LifecycleOutcome::Answered => assert(outcome_at(0) == outcome),
        LifecycleOutcome::Rejected => assert(outcome_at(1) == outcome),
        LifecycleOutcome::Cancelled => assert(outcome_at(2) == outcome),
    }
}

/// The resident-memory range seen after the warm-up cycles of a soak.
#[derive(Clone, Copy, Debug, PartialEq, Eq, Structural)]
pub struct ResidentWindow {
    /// Smallest post-warm-up resident size observed.
    pub min_bytes: Option<u64>,
    /// Largest post-warm-up resident size observed.
    pub max_bytes: Option<u64>,
}

pub open spec fn lower(current: Option<u64>, value: u64) -> u64 {
    match current {
        Some(current) => if current <= value {
            current
        } else {
            value
        },
        None => value,
    }
}

pub open spec fn higher(current: Option<u64>, value: u64) -> u64 {
    match current {
        Some(current) => if current >= value {
            current
        } else {
            value
        },
        None => value,
    }
}

impl ResidentWindow {
    /// An empty window.
    pub fn new() -> (window: Self)
        ensures
            window.min_bytes is None,
            window.max_bytes is None,
    {
        ResidentWindow { min_bytes: None, max_bytes: None }
    }

    /// Records the resident size seen after `cycle` when the warm-up is over,
    /// and fails once the range of post-warm-up sizes exceeds the configured
    /// drift bound. Warm-up cycles and samples without a resident size leave
    /// the window as it was.
    pub fn observe(&mut self, cycle: usize, config: LifecycleSoakConfig, sample: ProcessSample) -> (result:
        Result<(), LifecycleSoakError>)
        ensures
            cycle <= config.warmup_cycles || sample.resident_bytes is None ==> *final(self)
                == *old(self) && result is Ok,
            cycle > config.warmup_cycles && sample.resident_bytes is Some ==> ({
                let resident = sample.resident_bytes->Some_0;
                let low = lower(old(self).min_bytes, resident);
                let high = higher(old(self).max_bytes, resident);
                &&& final(self).min_bytes == Some(low)
                &&& final(self).max_bytes == Some(high)
                &&& if high - low > config.max_resident_drift_bytes {
                    result == Err::<(), LifecycleSoakError>(
                        LifecycleSoakError::ResidentDrift {
                            observed_bytes: (high - low) as u64,
                            maximum_bytes: config.max_resident_drift_bytes,
                        },
                    )
                } else {
                    result is Ok
                }
            }),
    {
        if cycle <= config.warmup_cycles {
            return Ok(());
        }
        if let Some(resident) = sample.resident_bytes {
            let low = match self.min_bytes {
                Some(minimum) => if minimum <= resident {
                    minimum
                } else {
                    resident
                },
                None => resident,
            };
            let high = match self.max_bytes {
                Some(maximum) => if maximum >= resident {
                    maximum
                } else {
                    resident
                },
                None => resident,
            };
            self.min_bytes = Some(low);
            self.max_bytes = Some(high);
            let observed = match optional_range(self.min_bytes, self.max_bytes) {
                Some(observed) => observed,
                None => 0,
            };
            if observed > config.max_resident_drift_bytes {
                return Err(
                    LifecycleSoakError::ResidentDrift {
                        observed_bytes: observed,
                        maximum_bytes: config.max_resident_drift_bytes,
                    },
                );
            }
        }
        Ok(())
    }
}

/// The soak failed an invariant in the cycle, with the message.
pub open spec fn invariant_failure(
    result: Result<(), LifecycleSoakError>,
    cycle: usize,
    detail: Seq<char>,
) -> bool {
    result matches Err(LifecycleSoakError::Invariant { cycle: c, detail: d }) && c == cycle && d@
        == detail
}

/// Whether a response with the status was among those an operation sent.
pub fn has_status(statuses: &[u16], status: u16) -> (found: bool)
    ensures
        found == statuses@.contains(status),
{
    let mut index: usize = 0;
    while index < statuses.len()
        invariant
            index <= statuses.len(),
            forall|j: int| 0 <= j < index ==> statuses@[j] != status,
        decreases statuses.len() - index,
    {
        if statuses[index] == status {
            assert(statuses@[index as int] == status);
            return true;
        }
        index += 1;
    }
    false
}

/// Checks that answering a call sent a 200 response.
pub fn check_answer_response(cycle: usize, statuses: &[u16]) -> (result: Result<(), LifecycleSoakError>)
    ensures
        statuses@.contains(200u16) ==> result is Ok,
        !statuses@.contains(200u16) ==> invariant_failure(
            result,
            cycle,
            "answer produced no 200 response"@,
        ),
{
    if has_status(statuses, 200) {
        Ok(())
    } else {
        Err(LifecycleSoakError::Invariant { cycle, detail: "answer produced no 200 response" })
    }
}

/// Checks that an answered and acknowledged call stays answered with its
/// dialog retained while its media runs.
pub fn check_answered_call(cycle: usize, state: CallState, dialog_count: usize) -> (result: Result<
    (),
    LifecycleSoakError,
>)
    ensures
        state != CallState::Answered ==> invariant_failure(
            result,
            cycle,
            "answered call did not remain Answered during media work"@,
        ),
        state == CallState::Answered && dialog_count == 0 ==> invariant_failure(
            result,
            cycle,
            "answered call retained no SIP dialog"@,
        ),
        state == CallState::Answered && dialog_count > 0 ==> result is Ok,
{
    if state != CallState::Answered {
        return Err(
            LifecycleSoakError::Invariant {
                cycle,
                detail: "answered call did not remain Answered during media work",
            },
        );
    }
    if dialog_count == 0 {
        return Err(
            LifecycleSoakError::Invariant { cycle, detail: "answered call retained no SIP dialog" },
        );
    }
    Ok(())
}

/// Checks that a BYE was answered with 200.
pub fn check_disconnect_response(cycle: usize, statuses: &[u16]) -> (result: Result<
    (),
    LifecycleSoakError,
>)
    ensures
        statuses@.contains(200u16) ==> result is Ok,
        !statuses@.contains(200u16) ==> invariant_failure(
            result,
            cycle,
            "BYE produced no 200 response"@,
        ),
{
    if has_status(statuses, 200) {
        Ok(())
    } else {
        Err(LifecycleSoakError::Invariant { cycle, detail: "BYE produced no 200 response" })
    }
}

/// Checks that rejecting a call sent a 486 response.
pub fn check_rejection_response(cycle: usize, statuses: &[u16]) -> (result: Result<
    (),
    LifecycleSoakError,
>)
    ensures
        statuses@.contains(486u16) ==> result is Ok,
        !statuses@.contains(486u16) ==> invariant_failure(
            result,
            cycle,
            "rejection produced no 486 response"@,
        ),
{
    if has_status(statuses, 486) {
        Ok(())
    } else {
        Err(LifecycleSoakError::Invariant { cycle, detail: "rejection produced no 486 response" })
    }
}

/// Checks that a CANCEL was answered with 200 and the INVITE with 487.
pub fn check_cancel_responses(cycle: usize, statuses: &[u16]) -> (result: Result<
    (),
    LifecycleSoakError,
>)
    ensures
        statuses@.contains(200u16) && statuses@.contains(487u16) ==> result is Ok,
        !(statuses@.contains(200u16) && statuses@.contains(487u16)) ==> invariant_failure(
            result,
            cycle,
            "CANCEL produced neither the required 200 nor 487 response"@,
        ),
{
    if has_status(statuses, 200) && has_status(statuses, 487) {
        Ok(())
    } else {
        Err(
            LifecycleSoakError::Invariant {
                cycle,
                detail: "CANCEL produced neither the required 200 nor 487 response",
            },
        )
    }
}

/// Checks that a finished call reached `Ended`; the message names the lifecycle.
pub fn check_call_ended(cycle: usize, state: CallState, detail: &'static str) -> (result: Result<
    (),
    LifecycleSoakError,
>)
    ensures
        state == CallState::Ended ==> result is Ok,
        state != CallState::Ended ==> result == Err::<(), LifecycleSoakError>(
            LifecycleSoakError::Invariant { cycle, detail },
        ),
{
    if state != CallState::Ended {
        Err(LifecycleSoakError::Invariant { cycle, detail })
    } else {
        Ok(())
    }
}

/// Checks that a reclaimed cycle left no call, SIP transaction or dialog.
pub fn check_logical_reclamation(
    cycle: usize,
    call_count: usize,
    transaction_count: usize,
    dialog_count: usize,
) -> (result: Result<(), LifecycleSoakError>)
    ensures
        call_count != 0 ==> invariant_failure(
            result,
            cycle,
            "call registry was not empty after the cycle"@,
        ),
        call_count == 0 && transaction_count != 0 ==> invariant_failure(
            result,
            cycle,
            "SIP transactions remained after the cycle"@,
        ),
        call_count == 0 && transaction_count == 0 && dialog_count != 0 ==> invariant_failure(
            result,
            cycle,
            "SIP dialogs remained after the cycle"@,
        ),
        call_count == 0 && transaction_count == 0 && dialog_count == 0 ==> result is Ok,
{
    if call_count != 0 {
        return Err(
            LifecycleSoakError::Invariant {
                cycle,
                detail: "call registry was not empty after the cycle",
            },
        );
    }
    if transaction_count != 0 {
        return Err(
            LifecycleSoakError::Invariant { cycle, detail: "SIP transactions remained after the cycle" },
        );
    }
    if dialog_count != 0 {
        return Err(
            LifecycleSoakError::Invariant { cycle, detail: "SIP dialogs remained after the cycle" },
        );
    }
    Ok(())
}

pub open spec fn sat_usize(value: int) -> usize {
    if value > usize::MAX {
        usize::MAX
    } else {
        value as usize
    }
}

/// What a soak has counted over its lifecycles; every count saturates.
#[derive(Clone, Copy, Debug, PartialEq, Eq, Structural)]
pub struct SoakTally {
    /// Calls answered, carried through media and disconnected.
    pub answered_calls: usize,
    /// Calls rejected with 486.
    pub rejected_calls: usize,
    /// Calls cancelled before an answer.
    pub cancelled_calls: usize,
    /// Terminal calls reclaimed from the engine.
    pub reclaimed_calls: usize,
    /// Inbound RTP packets processed.
    pub inbound_packets: u64,
    /// Packets played out of the jitter buffer.
    pub played_packets: u64,
    /// Outbound RTP packets sent.
    pub outbound_packets: u64,
    /// Decoded frames the AI queues dropped.
    pub ai_queue_drops: u64,
    /// Packets the jitter buffers dropped.
    pub jitter_drops: u64,
}

impl SoakTally {
    /// A tally with every count at zero.
    pub fn new() -> (tally: Self)
        ensures
            tally == (SoakTally {
                answered_calls: 0,
                rejected_calls: 0,
                cancelled_calls: 0,
                reclaimed_calls: 0,
                inbound_packets: 0,
                played_packets: 0,
                outbound_packets: 0,
                ai_queue_drops: 0,
                jitter_drops: 0,
            }),
    {
        SoakTally {
            answered_calls: 0,
            rejected_calls: 0,
            cancelled_calls: 0,
            reclaimed_calls: 0,
            inbound_packets: 0,
            played_packets: 0,
            outbound_packets: 0,
            ai_queue_drops: 0,
            jitter_drops: 0,
        }
    }

    /// Counts one media packet of an answered call: received, played and
    /// answered.
    pub fn record_media_packet(&mut self)
        ensures
            *final(self) == (SoakTally {
                inbound_packets: sat64(old(self).inbound_packets + 1),
                played_packets: sat64(old(self).played_packets + 1),
                outbound_packets: sat64(old(self).outbound_packets + 1),
                ..*old(self)
            }),
    {
        self.inbound_packets = self.inbound_packets.saturating_add(1);
        self.played_packets = self.played_packets.saturating_add(1);
        self.outbound_packets = self.outbound_packets.saturating_add(1);
    }

    /// Counts an answered call once its media was reclaimed: its drops and
    /// the call itself.
    pub fn record_answered(&mut self, reclaimed: ReclaimedMedia)
        ensures
            *final(self) == (SoakTally {
                ai_queue_drops: sat64(old(self).ai_queue_drops + reclaimed.ai_queue_drops),
                jitter_drops: sat64(old(self).jitter_drops + reclaimed.jitter_drops),
                answered_calls: sat_usize(old(self).answered_calls + 1),
                ..*old(self)
            }),
    {
        self.ai_queue_drops = self.ai_queue_drops.saturating_add(reclaimed.ai_queue_drops);
        self.jitter_drops = self.jitter_drops.saturating_add(reclaimed.jitter_drops);
        self.answered_calls = self.answered_calls.saturating_add(1);
    }

    /// Counts a rejected call.
    pub fn record_rejected(&mut self)
        ensures
            *final(self) == (SoakTally {
                rejected_calls: sat_usize(old(self).rejected_calls + 1),
                ..*old(self)
            }),
    {
        self.rejected_calls = self.rejected_calls.saturating_add(1);
    }

    /// Counts a cancelled call.
    pub fn record_cancelled(&mut self)
        ensures
            *final(self) == (SoakTally {
                cancelled_calls: sat_usize(old(self).cancelled_calls + 1),
                ..*old(self)
            }),
    {
        self.cancelled_calls = self.cancelled_calls.saturating_add(1);
    }

    /// Counts a reclaimed terminal call.
    pub fn record_reclaimed(&mut self)
        ensures
            *final(self) == (SoakTally {
                reclaimed_calls: sat_usize(old(self).reclaimed_calls + 1),
                ..*old(self)
            }),
    {
        self.reclaimed_calls = self.reclaimed_calls.saturating_add(1);
    }
}

} // verus!
