//! Bounded, fixed-delay RTP audio playout ordering.
//!
//! Every packet's playout deadline is resolved once, when the packet is
//! pushed, against the timeline anchor active at that moment. Later timeline
//! re-anchors therefore never move deadlines that were already assigned.

use vstd::prelude::*;

use crate::media_time::{
    MediaTime, media_sat_add, media_sat_sub, tick_nanos, MAX_MEDIA_NANOS,
};

verus! {

/// Largest accepted packet bound.
pub const MAX_JITTER_PACKETS: usize = 4096;

/// Largest accepted playout delay, in nanoseconds (ten seconds).
pub const MAX_PLAYOUT_DELAY_NANOS: u128 = 10_000_000_000;

/// The fields of one RTP packet that media processing reads and carries.
#[derive(Clone, Debug, PartialEq, Eq)]
pub struct RtpPacket {
    pub padding: bool,
    pub marker: bool,
    pub payload_type: u8,
    pub sequence_number: u16,
    pub timestamp: u32,
    pub ssrc: u32,
    pub csrcs: Vec<u32>,
    pub payload: Vec<u8>,
}

/// Resource and timing bounds for one receive-side audio jitter buffer.
#[derive(Clone, Copy, Debug, PartialEq, Eq)]
pub struct JitterBufferConfig {
    /// Maximum number of validated audio packets retained before playout.
    /// Values above 4,096 are rejected.
    pub max_packets: usize,
    /// Fixed delay added to the first packet's arrival time. Zero and values
    /// above ten seconds are rejected.
    pub playout_delay: MediaTime,
}

impl Default for JitterBufferConfig {
    fn default() -> (config: Self)
        ensures
            config.max_packets == 16,
            config.playout_delay@ == 60_000_000,
    {
        JitterBufferConfig { max_packets: 16, playout_delay: MediaTime::from_millis(60) }
    }
}

/// A configuration accepted by media sessions: between one and 4,096 packets,
/// and a non-zero delay of at most ten seconds.
pub open spec fn valid_jitter_config(config: JitterBufferConfig) -> bool {
    &&& 1 <= config.max_packets <= MAX_JITTER_PACKETS
    &&& config.playout_delay@ != 0
    &&& config.playout_delay@ <= MAX_PLAYOUT_DELAY_NANOS
}

impl JitterBufferConfig {
    pub fn is_valid(self) -> (valid: bool)
        ensures
            valid == valid_jitter_config(self),
    {
        1 <= self.max_packets && self.max_packets <= MAX_JITTER_PACKETS
            && self.playout_delay.as_nanos() != 0 && self.playout_delay.as_nanos()
            <= MAX_PLAYOUT_DELAY_NANOS
    }
}

/// Result of offering one validated audio packet to a jitter buffer.
#[derive(Clone, Copy, Debug, PartialEq, Eq, Structural)]
pub enum JitterPushOutcome {
    /// The packet was retained for time-based playout.
    Accepted,
    /// An identical RTP timestamp/sequence position was already retained.
    DroppedDuplicate,
    /// The packet belongs before audio that has already played.
    DroppedLate,
    /// The packet was the farthest-future packet at the configured bound.
    DroppedOverflow,
    /// A farther-future retained packet was replaced to protect imminent audio.
    ReplacedFuture,
    /// A new SSRC reset the old source's buffered timeline.
    SourceReset,
}

/// Constant-size jitter-buffer counters and current depth.
#[derive(Clone, Copy, Debug, PartialEq, Eq, Structural)]
pub struct JitterBufferStats {
    /// Packets currently retained for playout.
    pub depth: usize,
    /// Configured packet capacity.
    pub capacity: usize,
    /// Packets accepted into the buffer, including source-reset packets.
    pub accepted: u64,
    /// Packets emitted in RTP timestamp order.
    pub played: u64,
    /// Duplicate packets discarded before playout.
    pub dropped_duplicate: u64,
    /// Packets discarded because their playout position had passed.
    pub dropped_late: u64,
    /// Incoming or retained far-future packets discarded at capacity.
    pub dropped_overflow: u64,
    /// Buffered packets discarded when the remote SSRC changed.
    pub dropped_on_source_reset: u64,
    /// Number of observed remote SSRC changes.
    pub source_resets: u64,
    /// Times the playout timeline was re-anchored because the sender jumped
    /// its timestamp forward (more than one second of media) while audio was
    /// still buffered.
    pub timestamp_reanchors: u64,
}

impl Default for JitterBufferStats {
    fn default() -> (stats: Self)
        ensures
            stats == zero_stats(),
    {
        JitterBufferStats {
            depth: 0,
            capacity: 0,
            accepted: 0,
            played: 0,
            dropped_duplicate: 0,
            dropped_late: 0,
            dropped_overflow: 0,
            dropped_on_source_reset: 0,
            source_resets: 0,
            timestamp_reanchors: 0,
        }
    }
}

pub open spec fn zero_stats() -> JitterBufferStats {
    JitterBufferStats {
        depth: 0,
        capacity: 0,
        accepted: 0,
        played: 0,
        dropped_duplicate: 0,
        dropped_late: 0,
        dropped_overflow: 0,
        dropped_on_source_reset: 0,
        source_resets: 0,
        timestamp_reanchors: 0,
    }
}

/// Playout position: RTP timestamp and sequence number, both extended past
/// their wrap-around, ordered lexicographically.
#[derive(Clone, Copy, Debug, PartialEq, Eq, Structural)]
pub struct PlayoutKey {
    pub timestamp: i64,
    pub sequence: i64,
}

pub open spec fn key_lt(a: PlayoutKey, b: PlayoutKey) -> bool {
    a.timestamp < b.timestamp || (a.timestamp == b.timestamp && a.sequence < b.sequence)
}

fn key_less(a: PlayoutKey, b: PlayoutKey) -> (less: bool)
    ensures
        less == key_lt(a, b),
{
    a.timestamp < b.timestamp || (a.timestamp == b.timestamp && a.sequence < b.sequence)
}

/// The RTP timestamp whose playout deadline anchors later packets.
#[derive(Clone, Copy, Debug, PartialEq, Eq, Structural)]
pub struct Timeline {
    pub timestamp: i64,
    pub deadline: MediaTime,
}

/// One retained audio packet together with the playout deadline that was
/// resolved against the timeline anchor active when the packet was pushed.
#[derive(Debug)]
pub struct QueuedPacket {
    pub key: PlayoutKey,
    pub packet: RtpPacket,
    pub deadline: MediaTime,
}

/// The storage of a jitter buffer, whose operations ask for well-formedness.
#[derive(Debug)]
pub(crate) struct JitterCore {
    config: JitterBufferConfig,
    packets: Vec<QueuedPacket>,
    source_ssrc: Option<u32>,
    highest_timestamp: Option<i64>,
    highest_sequence: Option<i64>,
    last_played: Option<PlayoutKey>,
    timeline: Option<Timeline>,
    stats: JitterBufferStats,
}

/// The abstract state of a jitter buffer: retained packets in playout order
/// and the source, extension, playout and anchor state that decides the next
/// packet's fate.
pub struct JitterView {
    pub config: JitterBufferConfig,
    pub packets: Seq<QueuedPacket>,
    pub source_ssrc: Option<u32>,
    pub highest_timestamp: Option<i64>,
    pub highest_sequence: Option<i64>,
    pub last_played: Option<PlayoutKey>,
    pub timeline: Option<Timeline>,
    pub stats: JitterBufferStats,
}

impl View for JitterCore {
    type V = JitterView;

    closed spec fn view(&self) -> JitterView {
        JitterView {
            config: self.config,
            packets: self.packets@,
            source_ssrc: self.source_ssrc,
            highest_timestamp: self.highest_timestamp,
            highest_sequence: self.highest_sequence,
            last_played: self.last_played,
            timeline: self.timeline,
            stats: self.stats,
        }
    }
}

pub open spec fn sorted_keys(packets: Seq<QueuedPacket>) -> bool {
    forall|i: int, j: int|
        0 <= i < j < packets.len() ==> key_lt(#[trigger] packets[i].key, #[trigger] packets[j].key)
}

pub open spec fn holds_key(packets: Seq<QueuedPacket>, key: PlayoutKey) -> bool {
    exists|i: int| 0 <= i < packets.len() && #[trigger] packets[i].key == key
}

/// Retained packets are in strict playout order, within the packet bound, all
/// after the last played position, and the reported depth and capacity match.
pub open spec fn jitter_wf(state: JitterView) -> bool {
    &&& sorted_keys(state.packets)
    &&& state.packets.len() <= state.config.max_packets
    &&& state.stats.depth == state.packets.len()
    &&& state.stats.capacity == state.config.max_packets
    &&& (state.last_played matches Some(played) ==> forall|i: int|
        0 <= i < state.packets.len() ==> key_lt(played, #[trigger] state.packets[i].key))
}

/// Where a new key goes among sorted retained packets.
pub open spec fn insertion_index(packets: Seq<QueuedPacket>, key: PlayoutKey) -> int {
    choose|i: int| is_insertion_index(packets, key, i)
}

pub open spec fn is_insertion_index(packets: Seq<QueuedPacket>, key: PlayoutKey, i: int) -> bool {
    &&& 0 <= i <= packets.len()
    &&& forall|j: int| 0 <= j < i ==> key_lt(#[trigger] packets[j].key, key)
    &&& forall|j: int| i <= j < packets.len() ==> key_lt(key, #[trigger] packets[j].key)
}

pub proof fn lemma_insertion_index_unique(
    packets: Seq<QueuedPacket>,
    key: PlayoutKey,
    i: int,
)
    requires
        is_insertion_index(packets, key, i),
    ensures
        insertion_index(packets, key) == i,
{
    let k = insertion_index(packets, key);
    assert(is_insertion_index(packets, key, k));
    if k < i {
        assert(key_lt(packets[k].key, key));
        assert(key_lt(key, packets[k].key));
    } else if i < k {
        assert(key_lt(packets[i].key, key));
        assert(key_lt(key, packets[i].key));
    }
}

/// Saturating increment of a counter.
pub open spec fn sat_inc(value: u64) -> u64 {
    if value == u64::MAX {
        value
    } else {
        (value + 1) as u64
    }
}

pub open spec fn sat_add_u64(value: u64, amount: int) -> u64 {
    if value + amount > u64::MAX {
        u64::MAX
    } else {
        (value + amount) as u64
    }
}

/// An integer clamped to the `i64` range.
pub open spec fn clamp_i64(value: int) -> i64 {
    if value < i64::MIN {
        i64::MIN
    } else if value > i64::MAX {
        i64::MAX
    } else {
        value as i64
    }
}

/// Extends a wrapped counter (`value` modulo `modulus`) to the integer
/// congruent to it that lies within half a cycle of the highest value seen,
/// clamped to the `i64` range; the first value is taken as is.
pub open spec fn extend_spec(highest: Option<i64>, value: int, modulus: int) -> i64 {
    match highest {
        None => value as i64,
        Some(h) => {
            let offset = (h as int) % modulus;
            let candidate = h - offset + value;
            let difference = value - offset;
            if difference > modulus / 2 {
                clamp_i64(candidate - modulus)
            } else if difference < -(modulus / 2) {
                clamp_i64(candidate + modulus)
            } else {
                candidate as i64
            }
        },
    }
}

/// The playout deadline of a packet: the anchor deadline moved by the
/// (clamped) RTP timestamp distance from the anchor, converted at the clock
/// rate (at least 1 Hz) and saturating at both ends of media time.
pub open spec fn deadline_spec(timeline: Timeline, timestamp: i64, clock_rate: u32) -> nat {
    let ticks = clamp_i64(timestamp - timeline.timestamp);
    let magnitude = tick_nanos(if ticks >= 0 { ticks as nat } else { (-ticks) as nat }, clock_rate);
    if ticks >= 0 {
        media_sat_add(timeline.deadline@, magnitude)
    } else {
        media_sat_sub(timeline.deadline@, magnitude)
    }
}

pub open spec fn max_opt(current: Option<i64>, value: i64) -> i64 {
    match current {
        None => value,
        Some(c) => if c >= value {
            c
        } else {
            value
        },
    }
}

/// The state after a source change: the old source's packets, extension
/// state, playout position and anchor are discarded and counted.
pub open spec fn reset_source(state: JitterView) -> JitterView {
    JitterView {
        packets: Seq::empty(),
        highest_timestamp: None,
        highest_sequence: None,
        last_played: None,
        timeline: None,
        stats: JitterBufferStats {
            dropped_on_source_reset: sat_add_u64(
                state.stats.dropped_on_source_reset,
                state.packets.len() as int,
            ),
            source_resets: sat_inc(state.stats.source_resets),
            ..state.stats
        },
        ..state
    }
}

pub open spec fn with_depth(state: JitterView) -> JitterView {
    JitterView { stats: JitterBufferStats { depth: state.packets.len() as usize, ..state.stats }, ..state }
}

/// One push: reset on a new SSRC, extend the timestamp and sequence number,
/// drop late and duplicate positions, re-anchor on a talkspurt restart into an
/// empty buffer or on a forward jump of more than one second of media, assign
/// the deadline, then retain the packet, replacing the farthest-future packet
/// when the bound is reached and the new one plays earlier.
pub open spec fn push_step(
    state: JitterView,
    packet: RtpPacket,
    arrival: MediaTime,
    clock_rate: u32,
) -> (JitterView, JitterPushOutcome) {
    let reset = state.source_ssrc matches Some(ssrc) && ssrc != packet.ssrc;
    let s1 = if reset {
        reset_source(state)
    } else {
        state
    };
    let timestamp = extend_spec(s1.highest_timestamp, packet.timestamp as int, 0x1_0000_0000);
    let sequence = extend_spec(s1.highest_sequence, packet.sequence_number as int, 0x1_0000);
    let s2 = JitterView {
        source_ssrc: Some(packet.ssrc),
        highest_timestamp: Some(max_opt(s1.highest_timestamp, timestamp)),
        highest_sequence: Some(max_opt(s1.highest_sequence, sequence)),
        ..s1
    };
    let key = PlayoutKey { timestamp, sequence };
    if s2.last_played matches Some(played) && !key_lt(played, key) {
        (
            JitterView {
                stats: JitterBufferStats { dropped_late: sat_inc(s2.stats.dropped_late), ..s2.stats },
                ..s2
            },
            JitterPushOutcome::DroppedLate,
        )
    } else if holds_key(s2.packets, key) {
        (
            JitterView {
                stats: JitterBufferStats {
                    dropped_duplicate: sat_inc(s2.stats.dropped_duplicate),
                    ..s2.stats
                },
                ..s2
            },
            JitterPushOutcome::DroppedDuplicate,
        )
    } else {
        let restart = packet.marker && s2.packets.len() == 0 && s2.last_played is Some;
        let t1 = if restart {
            None
        } else {
            s2.timeline
        };
        let jumped = t1 matches Some(t) && clamp_i64(timestamp - t.timestamp) > clock_rate;
        let reanchors = if jumped {
            sat_inc(s2.stats.timestamp_reanchors)
        } else {
            s2.stats.timestamp_reanchors
        };
        let anchor = match (if jumped {
            None
        } else {
            t1
        }) {
            Some(t) => t,
            None => Timeline {
                timestamp,
                deadline: MediaTime::spec_from_nanos(
                    media_sat_add(arrival@, s2.config.playout_delay@),
                ),
            },
        };
        let deadline = MediaTime::spec_from_nanos(deadline_spec(anchor, timestamp, clock_rate));
        let s3 = JitterView {
            timeline: Some(anchor),
            stats: JitterBufferStats { timestamp_reanchors: reanchors, ..s2.stats },
            ..s2
        };
        let queued = QueuedPacket { key, packet, deadline };
        let base = if reset {
            JitterPushOutcome::SourceReset
        } else {
            JitterPushOutcome::Accepted
        };
        if s3.packets.len() == s3.config.max_packets {
            let s4 = JitterView {
                stats: JitterBufferStats {
                    dropped_overflow: sat_inc(s3.stats.dropped_overflow),
                    ..s3.stats
                },
                ..s3
            };
            if s3.packets.len() == 0 || !key_lt(key, s3.packets.last().key) {
                (with_depth(s4), JitterPushOutcome::DroppedOverflow)
            } else {
                let kept = s4.packets.drop_last();
                (
                    with_depth(
                        JitterView {
                            packets: kept.insert(insertion_index(kept, key), queued),
                            stats: JitterBufferStats { accepted: sat_inc(s4.stats.accepted), ..s4.stats },
                            ..s4
                        },
                    ),
                    JitterPushOutcome::ReplacedFuture,
                )
            }
        } else {
            (
                with_depth(
                    JitterView {
                        packets: s3.packets.insert(insertion_index(s3.packets, key), queued),
                        stats: JitterBufferStats { accepted: sat_inc(s3.stats.accepted), ..s3.stats },
                        ..s3
                    },
                ),
                base,
            )
        }
    }
}

/// One playout attempt at time `now`: the earliest packet leaves once its
/// deadline has passed, becoming the last played position.
pub open spec fn pop_step(state: JitterView, now: MediaTime) -> (JitterView, Option<RtpPacket>) {
    if state.packets.len() == 0 || now@ < state.packets[0].deadline@ {
        (state, None)
    } else {
        (
            with_depth(
                JitterView {
                    packets: state.packets.drop_first(),
                    last_played: Some(state.packets[0].key),
                    stats: JitterBufferStats { played: sat_inc(state.stats.played), ..state.stats },
                    ..state
                },
            ),
            Some(state.packets[0].packet),
        )
    }
}

fn sat_inc_u64(value: u64) -> (next: u64)
    ensures
        next == sat_inc(value),
{
    value.saturating_add(1)
}

fn sat_sub_i64(a: i64, b: i64) -> (difference: i64)
    ensures
        difference == clamp_i64(a - b),
{
    let wide = a as i128 - b as i128;
    if wide < i64::MIN as i128 {
        i64::MIN
    } else if wide > i64::MAX as i128 {
        i64::MAX
    } else {
        wide as i64
    }
}

fn sat_add_i64(a: i64, b: i64) -> (sum: i64)
    ensures
        sum == clamp_i64(a + b),
{
    let wide = a as i128 + b as i128;
    if wide < i64::MIN as i128 {
        i64::MIN
    } else if wide > i64::MAX as i128 {
        i64::MAX
    } else {
        wide as i64
    }
}

/// Euclidean remainder of `value` by a positive `modulus`.
fn euclid_rem(value: i64, modulus: i64) -> (rem: i64)
    requires
        modulus > 0,
    ensures
        rem == value % modulus,
        0 <= rem < modulus,
{
    if value >= 0 {
        ((value as u64) % (modulus as u64)) as i64
    } else {
        let mirrored = (-(value + 1)) as u64;
        let r = (mirrored % (modulus as u64)) as i64;
        proof {
            let m = mirrored as int;
            let q = m / (modulus as int);
            vstd::arithmetic::div_mod::lemma_fundamental_div_mod(m, modulus as int);
            assert(value == (-q - 1) * modulus + (modulus - 1 - r)) by (nonlinear_arith)
                requires
                    m == -(value + 1),
                    m == modulus * q + r,
            ;
            vstd::arithmetic::div_mod::lemma_fundamental_div_mod_converse_mod(
                value as int,
                modulus as int,
                -q - 1,
                modulus - 1 - r,
            );
        }
        modulus - 1 - r
    }
}

fn extend_wrapping(highest: Option<i64>, value: u64, bits: u32) -> (extended: i64)
    requires
        bits == 16 || bits == 32,
        bits == 16 ==> value < 0x1_0000,
        bits == 32 ==> value < 0x1_0000_0000,
    ensures
        extended == extend_spec(
            highest,
            value as int,
            if bits == 16 {
                0x1_0000
            } else {
                0x1_0000_0000
            },
        ),
{
    let highest = match highest {
        None => {
            return value as i64;
        },
        Some(highest) => highest,
    };
    let modulus: i64 = 1i64 << bits;
    assert(modulus == if bits == 16 {
        0x1_0000i64
    } else {
        0x1_0000_0000i64
    }) by (bit_vector)
        requires
            modulus == 1i64 << bits,
            bits == 16 || bits == 32,
    ;
    let half = modulus / 2;
    let offset = euclid_rem(highest, modulus);
    let extended = highest - offset + value as i64;
    let difference = value as i64 - offset;
    if difference > half {
        sat_sub_i64(extended, modulus)
    } else if difference < -half {
        sat_add_i64(extended, modulus)
    } else {
        extended
    }
}

fn extend_u16(highest: Option<i64>, value: u16) -> (extended: i64)
    ensures
        extended == extend_spec(highest, value as int, 0x1_0000),
{
    extend_wrapping(highest, value as u64, 16)
}

fn extend_u32(highest: Option<i64>, value: u32) -> (extended: i64)
    ensures
        extended == extend_spec(highest, value as int, 0x1_0000_0000),
{
    extend_wrapping(highest, value as u64, 32)
}

/// Converts RTP ticks at a clock rate to media time.
fn tick_duration(ticks: u64, clock_rate: u32) -> (duration: MediaTime)
    ensures
        duration@ == tick_nanos(ticks as nat, clock_rate),
{
    let rate: u64 = if clock_rate == 0 {
        1
    } else {
        clock_rate as u64
    };
    let seconds = ticks / rate;
    let fractional_ticks = ticks % rate;
    let nanos = fractional_ticks * 1_000_000_000 / rate;
    proof {
        crate::media_time::lemma_tick_nanos_split(ticks as nat, rate as nat);
    }
    MediaTime::from_parts(seconds, nanos)
}

/// Resolves one packet's playout deadline against a timeline anchor.
fn playout_deadline(timeline: &Timeline, timestamp: i64, clock_rate: u32) -> (deadline: MediaTime)
    ensures
        deadline == MediaTime::spec_from_nanos(deadline_spec(*timeline, timestamp, clock_rate)),
{
    let signed_ticks = sat_sub_i64(timestamp, timeline.timestamp);
    let magnitude_ticks: u64 = if signed_ticks >= 0 {
        signed_ticks as u64
    } else {
        (-(signed_ticks as i128)) as u64
    };
    let magnitude = tick_duration(magnitude_ticks, clock_rate);
    if signed_ticks >= 0 {
        timeline.deadline.saturating_add(magnitude)
    } else {
        timeline.deadline.saturating_sub(magnitude)
    }
}

impl JitterCore {
    pub fn new(config: JitterBufferConfig) -> (buffer: Self)
        ensures
            buffer@.config == config,
            buffer@.packets.len() == 0,
            buffer@.source_ssrc is None,
            buffer@.highest_timestamp is None,
            buffer@.highest_sequence is None,
            buffer@.last_played is None,
            buffer@.timeline is None,
            buffer@.stats == (JitterBufferStats { capacity: config.max_packets, ..zero_stats() }),
            jitter_wf(buffer@),
    {
        let mut stats = JitterBufferStats::default();
        stats.capacity = config.max_packets;
        JitterCore {
            config,
            packets: Vec::new(),
            source_ssrc: None,
            highest_timestamp: None,
            highest_sequence: None,
            last_played: None,
            timeline: None,
            stats,
        }
    }

    /// Finds where a new key goes among the retained packets.
    fn find_insertion(&self, key: PlayoutKey) -> (index: usize)
        requires
            sorted_keys(self@.packets),
            !holds_key(self@.packets, key),
        ensures
            is_insertion_index(self@.packets, key, index as int),
    {
        let mut index: usize = 0;
        while index < self.packets.len()
            invariant
                sorted_keys(self@.packets),
                !holds_key(self@.packets, key),
                index <= self.packets.len(),
                forall|j: int| 0 <= j < index ==> key_lt(#[trigger] self@.packets[j].key, key),
            decreases self.packets.len() - index,
        {
            if key_less(key, self.packets[index].key) {
                assert forall|j: int| index <= j < self@.packets.len() implies key_lt(
                    key,
                    #[trigger] self@.packets[j].key,
                ) by {
                    if j > index {
                        assert(key_lt(self@.packets[index as int].key, self@.packets[j].key));
                    }
                }
                return index;
            }
            assert(self@.packets[index as int].key != key);
            index = index + 1;
        }
        index
    }

    fn contains_key(&self, key: PlayoutKey) -> (found: bool)
        ensures
            found == holds_key(self@.packets, key),
    {
        let mut index: usize = 0;
        while index < self.packets.len()
            invariant
                index <= self.packets.len(),
                forall|j: int| 0 <= j < index ==> #[trigger] self@.packets[j].key != key,
            decreases self.packets.len() - index,
        {
            if self.packets[index].key == key {
                return true;
            }
            index = index + 1;
        }
        false
    }

    fn reset_for_new_source(&mut self)
        ensures
            final(self)@ == reset_source(old(self)@),
    {
        let dropped = self.packets.len() as u64;
        self.stats.dropped_on_source_reset = self.stats.dropped_on_source_reset.saturating_add(
            dropped,
        );
        self.stats.source_resets = sat_inc_u64(self.stats.source_resets);
        self.packets = Vec::new();
        self.highest_timestamp = None;
        self.highest_sequence = None;
        self.last_played = None;
        self.timeline = None;
        assert(self@.packets =~= Seq::<QueuedPacket>::empty());
    }

    fn refresh_depth(&mut self)
        ensures
            final(self)@ == with_depth(old(self)@),
    {
        self.stats.depth = self.packets.len();
    }

    pub fn push(&mut self, packet: RtpPacket, arrival: MediaTime, clock_rate: u32) -> (outcome:
        JitterPushOutcome)
        requires
            jitter_wf(old(self)@),
        ensures
            (final(self)@, outcome) == push_step(old(self)@, packet, arrival, clock_rate),
            jitter_wf(final(self)@),
    {
        let ghost start = self@;
        let source_reset = match self.source_ssrc {
            Some(ssrc) => ssrc != packet.ssrc,
            None => false,
        };
        if source_reset {
            self.reset_for_new_source();
        }
        let ghost s1 = self@;
        let timestamp = extend_u32(self.highest_timestamp, packet.timestamp);
        let sequence = extend_u16(self.highest_sequence, packet.sequence_number);
        self.source_ssrc = Some(packet.ssrc);
        self.highest_timestamp = Some(
            match self.highest_timestamp {
                None => timestamp,
                Some(value) => if value >= timestamp {
                    value
                } else {
                    timestamp
                },
            },
        );
        self.highest_sequence = Some(
            match self.highest_sequence {
                None => sequence,
                Some(value) => if value >= sequence {
                    value
                } else {
                    sequence
                },
            },
        );
        let key = PlayoutKey { timestamp, sequence };
        let late = match self.last_played {
            Some(played) => !key_less(played, key),
            None => false,
        };
        if late {
            self.stats.dropped_late = sat_inc_u64(self.stats.dropped_late);
            return JitterPushOutcome::DroppedLate;
        }
        if self.contains_key(key) {
            self.stats.dropped_duplicate = sat_inc_u64(self.stats.dropped_duplicate);
            return JitterPushOutcome::DroppedDuplicate;
        }
        if packet.marker && self.packets.len() == 0 && self.last_played.is_some() {
            // RTP's marker bit starts a new talkspurt for G.711. Re-anchor an
            // empty buffer so a sender timestamp discontinuity during silence
            // cannot schedule the new talkspurt arbitrarily far away.
            self.timeline = None;
        }
        let jump_ticks = clock_rate as i64;
        let jumped = match self.timeline {
            Some(timeline) => sat_sub_i64(timestamp, timeline.timestamp) > jump_ticks,
            None => false,
        };
        if jumped {
            // The sender moved its timestamp forward by more than one second
            // of media while audio is still buffered: re-anchor so the new
            // audio plays at arrival plus the configured delay. Packets queued
            // earlier keep the deadlines already assigned to them.
            self.stats.timestamp_reanchors = sat_inc_u64(self.stats.timestamp_reanchors);
            self.timeline = None;
        }
        let timeline = match self.timeline {
            Some(timeline) => timeline,
            None => {
                let anchor = Timeline {
                    timestamp,
                    deadline: arrival.saturating_add(self.config.playout_delay),
                };
                self.timeline = Some(anchor);
                anchor
            },
        };
        let deadline = playout_deadline(&timeline, timestamp, clock_rate);
        let outcome = if source_reset {
            JitterPushOutcome::SourceReset
        } else {
            JitterPushOutcome::Accepted
        };
        let ghost s3 = self@;
        if self.packets.len() == self.config.max_packets {
            self.stats.dropped_overflow = sat_inc_u64(self.stats.dropped_overflow);
            if self.packets.len() == 0 {
                self.refresh_depth();
                return JitterPushOutcome::DroppedOverflow;
            }
            let last = self.packets.len() - 1;
            let farthest = self.packets[last].key;
            if !key_less(key, farthest) {
                self.refresh_depth();
                return JitterPushOutcome::DroppedOverflow;
            }
            let _ = self.packets.pop();
            proof {
                assert(self@.packets =~= s3.packets.drop_last());
                assert(!holds_key(self@.packets, key));
            }
            let index = self.find_insertion(key);
            proof {
                lemma_insertion_index_unique(self@.packets, key, index as int);
            }
            self.packets.insert(index, QueuedPacket { key, packet, deadline });
            self.stats.accepted = sat_inc_u64(self.stats.accepted);
            self.refresh_depth();
            proof {
                lemma_insert_keeps_order(s3.packets.drop_last(), key, index as int, self@.last_played);
            }
            return JitterPushOutcome::ReplacedFuture;
        }
        let index = self.find_insertion(key);
        proof {
            lemma_insertion_index_unique(self@.packets, key, index as int);
        }
        self.packets.insert(index, QueuedPacket { key, packet, deadline });
        self.stats.accepted = sat_inc_u64(self.stats.accepted);
        self.refresh_depth();
        proof {
            lemma_insert_keeps_order(s3.packets, key, index as int, self@.last_played);
        }
        outcome
    }

    pub fn pop_due(&mut self, now: MediaTime) -> (packet: Option<RtpPacket>)
        requires
            jitter_wf(old(self)@),
        ensures
            (final(self)@, packet) == pop_step(old(self)@, now),
            jitter_wf(final(self)@),
    {
        if self.packets.len() == 0 {
            return None;
        }
        if now.as_nanos() < self.packets[0].deadline.as_nanos() {
            return None;
        }
        let ghost before = self@;
        let queued = self.packets.remove(0);
        self.last_played = Some(queued.key);
        self.stats.played = sat_inc_u64(self.stats.played);
        self.refresh_depth();
        proof {
            assert(self@.packets =~= before.packets.drop_first());
            assert forall|i: int| 0 <= i < self@.packets.len() implies key_lt(
                queued.key,
                #[trigger] self@.packets[i].key,
            ) by {
                assert(self@.packets[i] == before.packets[i + 1]);
            }
        }
        Some(queued.packet)
    }

    pub fn next_deadline(&self) -> (deadline: Option<MediaTime>)
        ensures
            deadline == (if self@.packets.len() == 0 {
                None
            } else {
                Some(self@.packets[0].deadline)
            }),
    {
        if self.packets.len() == 0 {
            None
        } else {
            Some(self.packets[0].deadline)
        }
    }

    pub fn stats(&self) -> (stats: JitterBufferStats)
        ensures
            stats == self@.stats,
    {
        self.stats
    }
}

/// Fixed-delay audio packet buffer driven entirely by caller-supplied time.
/// It is well formed at all times: retained packets in strict playout order
/// after the last played position, within the configured capacity.
#[derive(Debug)]
pub struct AudioJitterBuffer {
    core: JitterCore,
}

impl View for AudioJitterBuffer {
    type V = JitterView;

    closed spec fn view(&self) -> JitterView {
        self.core@
    }
}

impl AudioJitterBuffer {
    /// Every value is well formed.
    #[verifier::type_invariant]
    pub open spec fn well_formed(self) -> bool {
        jitter_wf(self@)
    }

    /// Creates an empty buffer.
    pub fn new(config: JitterBufferConfig) -> (buffer: Self)
        ensures
            buffer@.config == config,
            buffer@.packets.len() == 0,
            buffer@.source_ssrc is None,
            buffer@.highest_timestamp is None,
            buffer@.highest_sequence is None,
            buffer@.last_played is None,
            buffer@.timeline is None,
            buffer@.stats == (JitterBufferStats { capacity: config.max_packets, ..zero_stats() }),
            jitter_wf(buffer@),
    {
        AudioJitterBuffer { core: JitterCore::new(config) }
    }

    /// Offers one received packet for playout at its fixed-delay deadline.
    pub fn push(&mut self, packet: RtpPacket, arrival: MediaTime, clock_rate: u32) -> (outcome:
        JitterPushOutcome)
        ensures
            (final(self)@, outcome) == push_step(old(self)@, packet, arrival, clock_rate),
            jitter_wf(final(self)@),
    {
        proof {
            use_type_invariant(&*self);
        }
        let mut core = JitterCore::new(self.core.config);
        std::mem::swap(&mut core, &mut self.core);
        let outcome = core.push(packet, arrival, clock_rate);
        self.core = core;
        outcome
    }

    /// Releases the earliest retained packet when its deadline has come.
    pub fn pop_due(&mut self, now: MediaTime) -> (packet: Option<RtpPacket>)
        ensures
            (final(self)@, packet) == pop_step(old(self)@, now),
            jitter_wf(final(self)@),
    {
        proof {
            use_type_invariant(&*self);
        }
        let mut core = JitterCore::new(self.core.config);
        std::mem::swap(&mut core, &mut self.core);
        let packet = core.pop_due(now);
        self.core = core;
        packet
    }

    /// The deadline of the earliest retained packet.
    pub fn next_deadline(&self) -> (deadline: Option<MediaTime>)
        ensures
            deadline == (if self@.packets.len() == 0 {
                None
            } else {
                Some(self@.packets[0].deadline)
            }),
    {
        self.core.next_deadline()
    }

    /// The buffer's counters and current depth.
    pub fn stats(&self) -> (stats: JitterBufferStats)
        ensures
            stats == self@.stats,
    {
        self.core.stats()
    }
}


/// Inserting a fresh key at its insertion index keeps retained packets in
/// strict playout order and after the last played position.
proof fn lemma_insert_keeps_order(
    packets: Seq<QueuedPacket>,
    key: PlayoutKey,
    index: int,
    last_played: Option<PlayoutKey>,
)
    requires
        sorted_keys(packets),
        is_insertion_index(packets, key, index),
    ensures
        forall|q: QueuedPacket| #[trigger] sorted_keys(packets.insert(index, q)) || q.key != key,
{
    assert forall|q: QueuedPacket| q.key == key implies #[trigger] sorted_keys(
        packets.insert(index, q),
    ) by {
        let result = packets.insert(index, q);
        assert forall|i: int, j: int| 0 <= i < j < result.len() implies key_lt(
            #[trigger] result[i].key,
            #[trigger] result[j].key,
        ) by {
            if j < index {
                assert(result[i] == packets[i] && result[j] == packets[j]);
            } else if j == index {
                assert(result[i] == packets[i]);
            } else if i == index {
                assert(result[j] == packets[j - 1]);
            } else if i < index {
                assert(result[i] == packets[i] && result[j] == packets[j - 1]);
            } else {
                assert(result[i] == packets[i - 1] && result[j] == packets[j - 1]);
            }
        }
    }
}

/// Playout is in strict (extended timestamp, sequence) order: the packet that
/// leaves is after every position already played and before every packet
/// still retained.
pub proof fn law_playout_order(state: JitterView, now: MediaTime)
    requires
        jitter_wf(state),
    ensures
        pop_step(state, now).1 is Some ==> {
            let played = state.packets[0].key;
            &&& (state.last_played matches Some(previous) ==> key_lt(previous, played))
            &&& forall|i: int|
                0 <= i < pop_step(state, now).0.packets.len() ==> key_lt(
                    played,
                    #[trigger] pop_step(state, now).0.packets[i].key,
                )
        },
{
    if pop_step(state, now).1 is Some {
        let rest = pop_step(state, now).0.packets;
        assert forall|i: int| 0 <= i < rest.len() implies key_lt(
            state.packets[0].key,
            #[trigger] rest[i].key,
        ) by {
            assert(rest[i] == state.packets[i + 1]);
        }
    }
}

/// A deadline is assigned once: every packet retained after a push other
/// than the pushed one was already retained, with the same position, deadline
/// and payload.
pub proof fn law_assigned_deadlines_never_move(
    state: JitterView,
    packet: RtpPacket,
    arrival: MediaTime,
    clock_rate: u32,
)
    requires
        jitter_wf(state),
    ensures
        ({
            let after = push_step(state, packet, arrival, clock_rate).0;
            forall|i: int|
                0 <= i < after.packets.len() ==> #[trigger] after.packets[i].packet == packet
                    || exists|j: int| 0 <= j < state.packets.len() && state.packets[j] == after.packets[i]
        }),
{
    let after = push_step(state, packet, arrival, clock_rate).0;
    let reset = state.source_ssrc matches Some(ssrc) && ssrc != packet.ssrc;
    let s1 = if reset {
        reset_source(state)
    } else {
        state
    };
    let timestamp = extend_spec(s1.highest_timestamp, packet.timestamp as int, 0x1_0000_0000);
    let sequence = extend_spec(s1.highest_sequence, packet.sequence_number as int, 0x1_0000);
    let key = PlayoutKey { timestamp, sequence };
    let late = s1.last_played matches Some(played) && !key_lt(played, key);
    assert(sorted_keys(s1.packets)) by {
        if reset {
            assert(s1.packets.len() == 0);
        }
    }
    if !late && !holds_key(s1.packets, key) {
        let full = s1.packets.len() == s1.config.max_packets;
        let inserted = !full || (s1.packets.len() > 0 && key_lt(key, s1.packets.last().key));
        if inserted {
            let base = if full {
                s1.packets.drop_last()
            } else {
                s1.packets
            };
            if full {
                lemma_drop_last_keeps_order(s1.packets, key);
            }
            lemma_insertion_index_exists(base, key);
            let index = insertion_index(base, key);
            assert forall|i: int| 0 <= i < after.packets.len() && #[trigger] after.packets[i].packet
                != packet implies exists|j: int|
                0 <= j < state.packets.len() && state.packets[j] == after.packets[i] by {
                if i < index {
                    assert(after.packets[i] == base[i]);
                    assert(state.packets[i] == base[i]);
                } else if i > index {
                    assert(after.packets[i] == base[i - 1]);
                    assert(state.packets[i - 1] == base[i - 1]);
                } else {
                    assert(after.packets[i].packet == packet);
                }
            }
        } else {
            assert forall|i: int| 0 <= i < after.packets.len() && #[trigger] after.packets[i].packet
                != packet implies exists|j: int|
                0 <= j < state.packets.len() && state.packets[j] == after.packets[i] by {
                assert(state.packets[i] == after.packets[i]);
            }
        }
    } else {
        assert forall|i: int| 0 <= i < after.packets.len() && #[trigger] after.packets[i].packet
            != packet implies exists|j: int|
            0 <= j < state.packets.len() && state.packets[j] == after.packets[i] by {
            assert(state.packets[i] == after.packets[i]);
        }
    }
}

/// A packet at or before the last played position is never retained.
pub proof fn law_late_packets_are_dropped(
    state: JitterView,
    packet: RtpPacket,
    arrival: MediaTime,
    clock_rate: u32,
)
    requires
        jitter_wf(state),
        state.source_ssrc == Some(packet.ssrc),
        state.last_played matches Some(played) && !key_lt(
            played,
            PlayoutKey {
                timestamp: extend_spec(state.highest_timestamp, packet.timestamp as int, 0x1_0000_0000),
                sequence: extend_spec(state.highest_sequence, packet.sequence_number as int, 0x1_0000),
            },
        ),
    ensures
        push_step(state, packet, arrival, clock_rate).1 == JitterPushOutcome::DroppedLate,
        push_step(state, packet, arrival, clock_rate).0.packets == state.packets,
{
}

proof fn lemma_insertion_index_exists(packets: Seq<QueuedPacket>, key: PlayoutKey)
    requires
        sorted_keys(packets),
        !holds_key(packets, key),
    ensures
        is_insertion_index(packets, key, insertion_index(packets, key)),
    decreases packets.len(),
{
    if packets.len() == 0 {
        assert(is_insertion_index(packets, key, 0));
    } else {
        let last = packets.len() - 1;
        let init = packets.drop_last();
        assert(sorted_keys(init)) by {
            assert forall|i: int, j: int| 0 <= i < j < init.len() implies key_lt(
                #[trigger] init[i].key,
                #[trigger] init[j].key,
            ) by {
                assert(init[i] == packets[i] && init[j] == packets[j]);
            }
        }
        assert(!holds_key(init, key)) by {
            if holds_key(init, key) {
                let i = choose|i: int| 0 <= i < init.len() && #[trigger] init[i].key == key;
                assert(packets[i].key == key);
            }
        }
        if key_lt(packets[last].key, key) {
            assert(is_insertion_index(packets, key, packets.len() as int)) by {
                assert forall|j: int| 0 <= j < packets.len() implies key_lt(
                    #[trigger] packets[j].key,
                    key,
                ) by {
                    if j < last {
                        assert(key_lt(packets[j].key, packets[last].key));
                    }
                }
            }
        } else {
            assert(packets[last].key != key);
            lemma_insertion_index_exists(init, key);
            let i = insertion_index(init, key);
            assert(is_insertion_index(packets, key, i)) by {
                assert forall|j: int| 0 <= j < i implies key_lt(#[trigger] packets[j].key, key) by {
                    assert(packets[j] == init[j]);
                }
                assert forall|j: int| i <= j < packets.len() implies key_lt(
                    key,
                    #[trigger] packets[j].key,
                ) by {
                    if j < last {
                        assert(packets[j] == init[j]);
                    }
                }
            }
        }
    }
    lemma_insertion_index_unique(
        packets,
        key,
        choose|i: int| is_insertion_index(packets, key, i),
    );
}

proof fn lemma_drop_last_keeps_order(packets: Seq<QueuedPacket>, key: PlayoutKey)
    requires
        packets.len() > 0,
        sorted_keys(packets),
        !holds_key(packets, key),
    ensures
        sorted_keys(packets.drop_last()),
        !holds_key(packets.drop_last(), key),
{
    let kept = packets.drop_last();
    assert forall|i: int, j: int| 0 <= i < j < kept.len() implies key_lt(
        #[trigger] kept[i].key,
        #[trigger] kept[j].key,
    ) by {
        assert(kept[i] == packets[i] && kept[j] == packets[j]);
    }
    if holds_key(kept, key) {
        let i = choose|i: int| 0 <= i < kept.len() && #[trigger] kept[i].key == key;
        assert(packets[i].key == key);
    }
}

/// Every push keeps the buffer well formed: retained packets stay in strict
/// playout order after the last played position, and the depth never
/// exceeds the configured capacity.
pub proof fn law_push_preserves_wf(
    state: JitterView,
    packet: RtpPacket,
    arrival: MediaTime,
    clock_rate: u32,
)
    requires
        jitter_wf(state),
    ensures
        jitter_wf(push_step(state, packet, arrival, clock_rate).0),
        push_step(state, packet, arrival, clock_rate).0.stats.depth <= state.config.max_packets,
{
    let reset = state.source_ssrc matches Some(ssrc) && ssrc != packet.ssrc;
    let s1 = if reset {
        reset_source(state)
    } else {
        state
    };
    assert(sorted_keys(s1.packets) && s1.packets.len() <= s1.config.max_packets
        && s1.stats.capacity == s1.config.max_packets) by {
        if reset {
            assert(s1.packets.len() == 0);
        }
    }
    let timestamp = extend_spec(s1.highest_timestamp, packet.timestamp as int, 0x1_0000_0000);
    let sequence = extend_spec(s1.highest_sequence, packet.sequence_number as int, 0x1_0000);
    let key = PlayoutKey { timestamp, sequence };
    let late = s1.last_played matches Some(played) && !key_lt(played, key);
    if !late && !holds_key(s1.packets, key) {
        let full = s1.packets.len() == s1.config.max_packets;
        if full && s1.packets.len() > 0 && key_lt(key, s1.packets.last().key) {
            let kept = s1.packets.drop_last();
            lemma_drop_last_keeps_order(s1.packets, key);
            lemma_insertion_index_exists(kept, key);
            let index = insertion_index(kept, key);
            lemma_insert_keeps_order(kept, key, index, s1.last_played);
            lemma_insert_after_played(kept, key, index, s1.last_played);
        } else if !full {
            lemma_insertion_index_exists(s1.packets, key);
            let index = insertion_index(s1.packets, key);
            lemma_insert_keeps_order(s1.packets, key, index, s1.last_played);
            lemma_insert_after_played(s1.packets, key, index, s1.last_played);
        }
    }
}

proof fn lemma_insert_after_played(
    packets: Seq<QueuedPacket>,
    key: PlayoutKey,
    index: int,
    last_played: Option<PlayoutKey>,
)
    requires
        0 <= index <= packets.len(),
        last_played matches Some(played) ==> key_lt(played, key) && forall|i: int|
            0 <= i < packets.len() ==> key_lt(played, #[trigger] packets[i].key),
    ensures
        forall|q: QueuedPacket|
            q.key == key ==> (last_played matches Some(played) ==> forall|i: int|
                0 <= i < #[trigger] packets.insert(index, q).len() ==> key_lt(
                    played,
                    packets.insert(index, q)[i].key,
                )),
{
    assert forall|q: QueuedPacket| q.key == key implies (last_played matches Some(played)
        ==> forall|i: int|
        0 <= i < #[trigger] packets.insert(index, q).len() ==> key_lt(
            played,
            packets.insert(index, q)[i].key,
        )) by {
        if last_played is Some {
            let played = last_played->0;
            let result = packets.insert(index, q);
            assert forall|i: int| 0 <= i < result.len() implies key_lt(played, result[i].key) by {
                if i < index {
                    assert(result[i] == packets[i]);
                } else if i > index {
                    assert(result[i] == packets[i - 1]);
                }
            }
        }
    }
}

/// Every playout attempt keeps the buffer well formed.
pub proof fn law_pop_preserves_wf(state: JitterView, now: MediaTime)
    requires
        jitter_wf(state),
    ensures
        jitter_wf(pop_step(state, now).0),
{
    if pop_step(state, now).1 is Some {
        let rest = pop_step(state, now).0.packets;
        assert(rest =~= state.packets.drop_first());
        assert forall|i: int| 0 <= i < rest.len() implies key_lt(
            state.packets[0].key,
            #[trigger] rest[i].key,
        ) by {
            assert(rest[i] == state.packets[i + 1]);
        }
        assert(sorted_keys(rest)) by {
            assert forall|i: int, j: int| 0 <= i < j < rest.len() implies key_lt(
                #[trigger] rest[i].key,
                #[trigger] rest[j].key,
            ) by {
                assert(rest[i] == state.packets[i + 1] && rest[j] == state.packets[j + 1]);
            }
        }
    }
}

} // verus!
