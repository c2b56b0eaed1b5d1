//! The decisions of a bounded media session: its payload and queue bounds,
//! the loss figures of its RTCP receiver reports, the checks an AI frame
//! passes before it is sent as RTP, and the bounded DTMF notification inbox.

use std::collections::VecDeque;

use vstd::prelude::*;

use crate::dtmf::{observe_step, Deduplicator, DeduplicatorView, DtmfEvent, Notification};
use crate::media::AudioCodec;

verus! {

/// The payload types and bounds of a media session that it checks itself.
#[derive(Clone, Copy, Debug, PartialEq, Eq, Structural)]
pub struct SessionLimits {
    /// Negotiated RTP audio payload type.
    pub payload_type: u8,
    /// Negotiated RFC 4733 telephone-event payload type, if present.
    pub dtmf_payload_type: Option<u8>,
    /// Maximum decoded samples accepted from one RTP audio packet.
    pub max_audio_samples: usize,
    /// Maximum DTMF notifications retained for the application.
    pub max_pending_dtmf: usize,
}

/// Errors raised while driving a bounded media session.
#[derive(Clone, Copy, Debug, PartialEq, Eq, Structural)]
pub enum MediaSessionError {
    /// A payload type or queue bound was invalid.
    InvalidConfig,
    /// A decoded frame exceeded the configured sample bound.
    AudioFrameTooLarge { actual: usize, maximum: usize },
    /// An AI frame used a codec different from the negotiated codec.
    CodecMismatch { expected: AudioCodec, actual: AudioCodec },
    /// An AI frame used a sample rate different from the RTP clock.
    SampleRateMismatch { expected: u32, actual: u32 },
    /// DTMF was requested without a negotiated telephone-event payload type.
    DtmfNotNegotiated,
    /// A receiver report was requested before any valid remote RTP packet.
    NoRtpForReceiverReport,
    /// A frame count could not fit in an RTP timestamp increment.
    TimestampIncrementOverflow,
}

/// Bounds that a session accepts: 7-bit payload types, a telephone-event
/// payload type distinct from the audio one, and non-zero sample and DTMF
/// bounds.
pub open spec fn limits_valid(limits: SessionLimits) -> bool {
    &&& limits.payload_type <= 127
    &&& match limits.dtmf_payload_type {
        Some(dtmf) => dtmf <= 127 && dtmf != limits.payload_type,
        None => true,
    }
    &&& limits.max_audio_samples > 0
    &&& limits.max_pending_dtmf > 0
}

/// Checks a session's payload types and bounds.
pub fn validate_limits(limits: SessionLimits) -> (result: Result<SessionLimits, MediaSessionError>)
    ensures
        limits_valid(limits) ==> result == Ok::<SessionLimits, MediaSessionError>(limits),
        !limits_valid(limits) ==> result == Err::<SessionLimits, MediaSessionError>(
            MediaSessionError::InvalidConfig,
        ),
{
    let dtmf_out_of_range = match limits.dtmf_payload_type {
        Some(dtmf) => dtmf > 127,
        None => false,
    };
    let dtmf_collides = match limits.dtmf_payload_type {
        Some(dtmf) => dtmf == limits.payload_type,
        None => false,
    };
    if limits.payload_type > 127 || dtmf_out_of_range || dtmf_collides || limits.max_audio_samples
        == 0 || limits.max_pending_dtmf == 0 {
        return Err(MediaSessionError::InvalidConfig);
    }
    Ok(limits)
}

/// Checks a decoded RTP audio payload against the session's sample bound.
pub fn check_received_samples(samples: usize, limits: SessionLimits) -> (result: Result<
    (),
    MediaSessionError,
>)
    ensures
        samples <= limits.max_audio_samples ==> result is Ok,
        samples > limits.max_audio_samples ==> result == Err::<(), MediaSessionError>(
            MediaSessionError::AudioFrameTooLarge { actual: samples, maximum: limits.max_audio_samples },
        ),
{
    if samples > limits.max_audio_samples {
        Err(
            MediaSessionError::AudioFrameTooLarge {
                actual: samples,
                maximum: limits.max_audio_samples,
            },
        )
    } else {
        Ok(())
    }
}

/// What sending the oldest queued AI frame as RTP gives: the codec must be
/// the negotiated one, the sample rate the RTP clock, the sample count within
/// the bound and within an RTP timestamp increment; the increment is the
/// sample count.
pub open spec fn frame_send_outcome(
    codec: AudioCodec,
    sample_rate: u32,
    samples: usize,
    session_codec: AudioCodec,
    clock_rate: u32,
    max_audio_samples: usize,
) -> Result<u32, MediaSessionError> {
    if codec != session_codec {
        Err(MediaSessionError::CodecMismatch { expected: session_codec, actual: codec })
    } else if sample_rate != clock_rate {
        Err(MediaSessionError::SampleRateMismatch { expected: clock_rate, actual: sample_rate })
    } else if samples > max_audio_samples {
        Err(MediaSessionError::AudioFrameTooLarge { actual: samples, maximum: max_audio_samples })
    } else if samples > u32::MAX {
        Err(MediaSessionError::TimestampIncrementOverflow)
    } else {
        Ok(samples as u32)
    }
}

/// Checks a queued AI frame before it is sent and gives its RTP timestamp
/// increment.
pub fn check_frame_for_rtp(
    codec: AudioCodec,
    sample_rate: u32,
    samples: usize,
    session_codec: AudioCodec,
    clock_rate: u32,
    max_audio_samples: usize,
) -> (result: Result<u32, MediaSessionError>)
    ensures
        result == frame_send_outcome(
            codec,
            sample_rate,
            samples,
            session_codec,
            clock_rate,
            max_audio_samples,
        ),
{
    if codec != session_codec {
        return Err(MediaSessionError::CodecMismatch { expected: session_codec, actual: codec });
    }
    if sample_rate != clock_rate {
        return Err(
            MediaSessionError::SampleRateMismatch { expected: clock_rate, actual: sample_rate },
        );
    }
    if samples > max_audio_samples {
        return Err(
            MediaSessionError::AudioFrameTooLarge { actual: samples, maximum: max_audio_samples },
        );
    }
    if samples > 0xffff_ffffusize {
        return Err(MediaSessionError::TimestampIncrementOverflow);
    }
    Ok(samples as u32)
}

/// The telephone-event payload type to send with, when one was negotiated.
pub fn dtmf_send_payload_type(limits: SessionLimits) -> (result: Result<u8, MediaSessionError>)
    ensures
        match limits.dtmf_payload_type {
            Some(dtmf) => result == Ok::<u8, MediaSessionError>(dtmf),
            None => result == Err::<u8, MediaSessionError>(MediaSessionError::DtmfNotNegotiated),
        },
{
    match limits.dtmf_payload_type {
        Some(dtmf) => Ok(dtmf),
        None => Err(MediaSessionError::DtmfNotNegotiated),
    }
}

/// Cumulative reception counts of the observed remote RTP source.
#[derive(Clone, Copy, Debug, PartialEq, Eq, Structural)]
pub struct ReceptionCounts {
    /// Remote source the counts describe.
    pub source_ssrc: u32,
    /// Packets expected from the extended sequence range seen so far.
    pub expected_packets: u64,
    /// Packets lost so far.
    pub packets_lost: u64,
}

/// The loss figures of one reception report.
#[derive(Clone, Copy, Debug, PartialEq, Eq, Structural)]
pub struct LossReport {
    /// Remote source the report describes.
    pub source_ssrc: u32,
    /// Loss since the previous report of the same source, in 256ths.
    pub fraction_lost: u8,
    /// Cumulative loss, capped at the 24-bit field's largest value.
    pub cumulative_lost: i32,
}

/// A count difference that stops at zero.
pub open spec fn saturating_diff(a: u64, b: u64) -> u64 {
    if a >= b {
        (a - b) as u64
    } else {
        0
    }
}

/// Loss over an interval in 256ths of the packets expected in it, at most
/// 255, and zero when no packet was expected.
pub open spec fn fraction_of(lost: u64, expected: u64) -> u8 {
    if expected == 0 {
        0
    } else {
        let scaled: u64 = if lost > u64::MAX / 256 {
            u64::MAX
        } else {
            (lost * 256) as u64
        };
        if scaled / expected > 255 {
            255
        } else {
            (scaled / expected) as u8
        }
    }
}

/// The report for the counts, measuring loss from the counts of the previous
/// report when it described the same source, else from the start.
pub open spec fn loss_report(previous: Option<ReceptionCounts>, counts: ReceptionCounts) -> LossReport {
    let (expected_before, lost_before) = match previous {
        Some(last) => if last.source_ssrc == counts.source_ssrc {
            (last.expected_packets, last.packets_lost)
        } else {
            (0u64, 0u64)
        },
        None => (0u64, 0u64),
    };
    LossReport {
        source_ssrc: counts.source_ssrc,
        fraction_lost: fraction_of(
            saturating_diff(counts.packets_lost, lost_before),
            saturating_diff(counts.expected_packets, expected_before),
        ),
        cumulative_lost: if counts.packets_lost > 0x7f_ffff {
            0x7f_ffff
        } else {
            counts.packets_lost as i32
        },
    }
}

/// Remembers the counts of the last receiver report so that the next one
/// measures its interval loss from them.
#[derive(Clone, Copy, Debug, PartialEq, Eq, Structural)]
pub struct ReceiverReportClock {
    last: Option<ReceptionCounts>,
}

impl View for ReceiverReportClock {
    type V = Option<ReceptionCounts>;

    closed spec fn view(&self) -> Option<ReceptionCounts> {
        self.last
    }
}

fn fraction_lost(lost: u64, expected: u64) -> (fraction: u8)
    ensures
        fraction == fraction_of(lost, expected),
{
    if expected == 0 {
        return 0;
    }
    let scaled: u64 = if lost > u64::MAX / 256 {
        u64::MAX
    } else {
        lost * 256
    };
    let ratio = scaled / expected;
    if ratio > 255 {
        255
    } else {
        ratio as u8
    }
}

impl ReceiverReportClock {
    /// A clock that has produced no report yet.
    pub fn new() -> (clock: Self)
        ensures
            clock@ == None::<ReceptionCounts>,
    {
        ReceiverReportClock { last: None }
    }

    /// The loss figures of the next receiver report. Without counts (no valid
    /// remote RTP yet) it fails and remembers nothing.
    pub fn report(&mut self, counts: Option<ReceptionCounts>) -> (result: Result<
        LossReport,
        MediaSessionError,
    >)
        ensures
            match counts {
                Some(counts) => {
                    &&& result == Ok::<LossReport, MediaSessionError>(
                        loss_report(old(self)@, counts),
                    )
                    &&& final(self)@ == Some(counts)
                },
                None => {
                    &&& result == Err::<LossReport, MediaSessionError>(
                        MediaSessionError::NoRtpForReceiverReport,
                    )
                    &&& final(self)@ == old(self)@
                },
            },
    {
        let counts = match counts {
            Some(counts) => counts,
            None => return Err(MediaSessionError::NoRtpForReceiverReport),
        };
        let (expected_before, lost_before) = match self.last {
            Some(last) => if last.source_ssrc == counts.source_ssrc {
                (last.expected_packets, last.packets_lost)
            } else {
                (0u64, 0u64)
            },
            None => (0u64, 0u64),
        };
        let expected_interval = counts.expected_packets.saturating_sub(expected_before);
        let lost_interval = counts.packets_lost.saturating_sub(lost_before);
        let cumulative_lost: i32 = if counts.packets_lost > 0x7f_ffff {
            0x7f_ffff
        } else {
            counts.packets_lost as i32
        };
        self.last = Some(counts);
        Ok(
            LossReport {
                source_ssrc: counts.source_ssrc,
                fraction_lost: fraction_lost(lost_interval, expected_interval),
                cumulative_lost,
            },
        )
    }
}

/// Interval loss is measured between consecutive reports: the second of two
/// reports on the same source counts only what was expected and lost after
/// the first, while a report on a new source counts from the start.
pub proof fn law_report_interval_follows_previous_report(
    start: Option<ReceptionCounts>,
    first: ReceptionCounts,
    second: ReceptionCounts,
)
    ensures
        first.source_ssrc == second.source_ssrc ==> loss_report(Some(first), second).fraction_lost
            == fraction_of(
            saturating_diff(second.packets_lost, first.packets_lost),
            saturating_diff(second.expected_packets, first.expected_packets),
        ),
        first.source_ssrc != second.source_ssrc ==> loss_report(Some(first), second)
            == loss_report(None, second),
        loss_report(Some(first), second).cumulative_lost == loss_report(start, second).cumulative_lost,
{
}

/// The fraction lost never reaches 256 and is zero over an interval with no
/// loss.
pub proof fn law_fraction_is_bounded(lost: u64, expected: u64)
    ensures
        fraction_of(lost, expected) <= 255,
        lost == 0 ==> fraction_of(lost, expected) == 0,
{
}

/// A counter advanced by one, stopping at its maximum.
pub open spec fn bump64(counter: u64) -> u64 {
    if counter == u64::MAX {
        counter
    } else {
        (counter + 1) as u64
    }
}

/// The application-facing DTMF state of a session: retransmissions collapsed
/// by a deduplicator, notifications retained up to a bound with the oldest
/// dropped first, and the counts of both.
pub struct DtmfInbox {
    dedup: Deduplicator,
    pending: VecDeque<Notification>,
    max_pending: usize,
    dropped: u64,
    notifications: u64,
}

pub struct DtmfInboxView {
    pub dedup: DeduplicatorView,
    pub pending: Seq<Notification>,
    pub max_pending: usize,
    pub dropped: u64,
    pub notifications: u64,
}

impl View for DtmfInbox {
    type V = DtmfInboxView;

    closed spec fn view(&self) -> DtmfInboxView {
        DtmfInboxView {
            dedup: self.dedup@,
            pending: self.pending@,
            max_pending: self.max_pending,
            dropped: self.dropped,
            notifications: self.notifications,
        }
    }
}

/// What accepting one telephone-event packet reports.
#[derive(Clone, Copy, Debug, PartialEq, Eq, Structural)]
pub struct DtmfReceipt {
    /// Exact validated telephone event carried by the packet.
    pub event: DtmfEvent,
    /// RTP marker bit carried by the packet.
    pub marker: bool,
    /// RTP timestamp carried by the packet.
    pub timestamp: u32,
    /// Application notification, if the packet changed DTMF state.
    pub notification: Option<Notification>,
    /// Whether the notification was retained in the bounded queue.
    pub queued: bool,
}

/// The inbox after one telephone event: a notification is counted and
/// queued, evicting the oldest retained one when the bound is reached.
pub open spec fn inbox_step(state: DtmfInboxView, event: DtmfEvent) -> (
    DtmfInboxView,
    Option<Notification>,
) {
    let (dedup, notification) = observe_step(state.dedup, event);
    match notification {
        None => (DtmfInboxView { dedup, ..state }, None),
        Some(note) => {
            let full = state.pending.len() >= state.max_pending;
            let kept = if full && state.pending.len() > 0 {
                state.pending.skip(1)
            } else {
                state.pending
            };
            (
                DtmfInboxView {
                    dedup,
                    pending: kept.push(note),
                    dropped: if full {
                        bump64(state.dropped)
                    } else {
                        state.dropped
                    },
                    notifications: bump64(state.notifications),
                    ..state
                },
                Some(note),
            )
        },
    }
}

impl DtmfInbox {
    /// An empty inbox retaining at most `max_pending` notifications.
    pub fn new(max_pending: usize) -> (inbox: Self)
        ensures
            inbox@.dedup.active is None,
            inbox@.dedup.last_ended is None,
            inbox@.pending == Seq::<Notification>::empty(),
            inbox@.max_pending == max_pending,
            inbox@.dropped == 0,
            inbox@.notifications == 0,
    {
        DtmfInbox {
            dedup: Deduplicator::default(),
            pending: VecDeque::new(),
            max_pending,
            dropped: 0,
            notifications: 0,
        }
    }

    /// Accepts one telephone-event packet.
    pub fn receive(&mut self, event: DtmfEvent, marker: bool, timestamp: u32) -> (receipt: DtmfReceipt)
        ensures
            (final(self)@, receipt.notification) == inbox_step(old(self)@, event),
            receipt.event == event,
            receipt.marker == marker,
            receipt.timestamp == timestamp,
            receipt.queued == receipt.notification is Some,
    {
        let notification = self.dedup.observe(event);
        let note = match notification {
            Some(note) => note,
            None => {
                return DtmfReceipt { event, marker, timestamp, notification: None, queued: false };
            },
        };
        self.notifications = self.notifications.saturating_add(1);
        if self.pending.len() >= self.max_pending {
            let ghost before = self.pending@;
            let _ = self.pending.pop_front();
            proof {
                if before.len() > 0 {
                    assert(self.pending@ =~= before.skip(1));
                }
            }
            self.dropped = self.dropped.saturating_add(1);
        }
        self.pending.push_back(note);
        DtmfReceipt { event, marker, timestamp, notification: Some(note), queued: true }
    }

    /// Removes the oldest retained notification.
    pub fn pop(&mut self) -> (next: Option<Notification>)
        ensures
            old(self)@.pending.len() == 0 ==> next is None && final(self)@ == old(self)@,
            old(self)@.pending.len() > 0 ==> {
                &&& next == Some(old(self)@.pending[0])
                &&& final(self)@ == (DtmfInboxView {
                    pending: old(self)@.pending.skip(1),
                    ..old(self)@
                })
            },
    {
        let ghost before = self.pending@;
        let next = self.pending.pop_front();
        proof {
            if before.len() > 0 {
                assert(self.pending@ =~= before.skip(1));
            }
        }
        next
    }

    /// Notifications waiting for the application.
    pub fn pending(&self) -> (count: usize)
        ensures
            count == self@.pending.len(),
    {
        self.pending.len()
    }

    /// Notifications dropped at the bound.
    pub fn dropped(&self) -> (count: u64)
        ensures
            count == self@.dropped,
    {
        self.dropped
    }

    /// State-change notifications generated.
    pub fn notifications(&self) -> (count: u64)
        ensures
            count == self@.notifications,
    {
        self.notifications
    }
}

/// The inbox never retains more than its bound once that bound is positive,
/// and always keeps the newest notification.
pub proof fn law_inbox_stays_bounded(state: DtmfInboxView, event: DtmfEvent)
    requires
        state.max_pending > 0,
        state.pending.len() <= state.max_pending,
    ensures
        inbox_step(state, event).0.pending.len() <= state.max_pending,
        inbox_step(state, event).1 matches Some(note) ==> inbox_step(state, event).0.pending.last()
            == note,
{
}

/// Which path a received RTP packet takes.
#[derive(Clone, Copy, Debug, PartialEq, Eq, Structural)]
pub enum PacketRoute {
    /// Checked as the negotiated audio payload.
    Audio,
    /// Checked as a telephone-event payload under its own payload type.
    Dtmf,
}

/// Routes a received packet by its payload type, `None` when the packet
/// could not be parsed: the audio payload type and anything unrecognised go
/// the audio way, where a mismatch is reported; the negotiated
/// telephone-event payload type goes the DTMF way.
pub fn route_packet(payload_type: Option<u8>, limits: SessionLimits) -> (route: PacketRoute)
    ensures
        route == PacketRoute::Dtmf <==> (payload_type matches Some(pt) && pt != limits.payload_type
            && limits.dtmf_payload_type == Some(pt)),
{
    match payload_type {
        Some(pt) => {
            if pt == limits.payload_type {
                PacketRoute::Audio
            } else {
                match limits.dtmf_payload_type {
                    Some(dtmf) => if dtmf == pt {
                        PacketRoute::Dtmf
                    } else {
                        PacketRoute::Audio
                    },
                    None => PacketRoute::Audio,
                }
            }
        },
        None => PacketRoute::Audio,
    }
}

/// A sender-report counter: the count, or the field's largest value when it
/// does not fit in 32 bits.
pub fn sender_report_counter(count: u64) -> (field: u32)
    ensures
        count <= u32::MAX ==> field == count,
        count > u32::MAX ==> field == u32::MAX,
{
    if count > 0xffff_ffffu64 {
        0xffff_ffffu32
    } else {
        count as u32
    }
}

} // verus!
