//! Bounded media queues and G.711 conversion primitives.

use std::collections::VecDeque;

use vstd::prelude::*;

use crate::call_api::bump;

verus! {

/// What a full queue does with one more item.
#[derive(Clone, Copy, Debug, PartialEq, Eq, Structural)]
pub enum DropPolicy {
    /// Evict the oldest queued item to make room.
    DropOldest,
    /// Reject the new item.
    DropNewest,
}

/// What happened to one pushed item.
#[derive(Clone, Copy, Debug, PartialEq, Eq, Structural)]
pub enum PushOutcome {
    /// The item was queued without loss.
    Accepted,
    /// The item was queued and the oldest item was evicted.
    DroppedOldest,
    /// The item was rejected because the queue was full.
    DroppedNewest,
}

/// Rejection of an unusable queue configuration.
#[derive(Clone, Debug, PartialEq, Eq, Structural)]
pub enum QueueError {
    /// The capacity was zero.
    ZeroCapacity,
}

/// A FIFO queue that never holds more than its capacity.
#[derive(Debug)]
pub struct BoundedMediaQueue<T> {
    items: VecDeque<T>,
    capacity: usize,
    policy: DropPolicy,
    pushed: u64,
    dropped_oldest: u64,
    dropped_newest: u64,
}

/// A queue as its contracts see it: the items oldest first, the bound and
/// policy, and the lifetime counters.
pub struct QueueView<T> {
    pub items: Seq<T>,
    pub capacity: usize,
    pub policy: DropPolicy,
    pub pushed: u64,
    pub dropped_oldest: u64,
    pub dropped_newest: u64,
}

impl<T> View for BoundedMediaQueue<T> {
    type V = QueueView<T>;

    closed spec fn view(&self) -> QueueView<T> {
        QueueView {
            items: self.items@,
            capacity: self.capacity,
            policy: self.policy,
            pushed: self.pushed,
            dropped_oldest: self.dropped_oldest,
            dropped_newest: self.dropped_newest,
        }
    }
}

/// Counters and gauges of one queue.
#[derive(Clone, Copy, Debug, PartialEq, Eq, Structural)]
pub struct QueueStats {
    pub depth: usize,
    pub capacity: usize,
    pub pushed: u64,
    pub dropped_oldest: u64,
    pub dropped_newest: u64,
}

/// What one push does: every push is counted; below capacity the item joins
/// the back; at capacity the policy either evicts the oldest item or rejects
/// the new one, and the matching drop counter advances.
pub open spec fn push_post<T>(
    before: QueueView<T>,
    item: T,
    outcome: PushOutcome,
    after: QueueView<T>,
) -> bool {
    &&& after.pushed == bump(before.pushed)
    &&& after.capacity == before.capacity
    &&& after.policy == before.policy
    &&& if before.items.len() < before.capacity {
        &&& outcome == PushOutcome::Accepted
        &&& after.items == before.items.push(item)
        &&& after.dropped_oldest == before.dropped_oldest
        &&& after.dropped_newest == before.dropped_newest
    } else {
        match before.policy {
            DropPolicy::DropOldest => {
                &&& outcome == PushOutcome::DroppedOldest
                &&& after.items == before.items.subrange(1, before.items.len() as int).push(item)
                &&& after.dropped_oldest == bump(before.dropped_oldest)
                &&& after.dropped_newest == before.dropped_newest
            },
            DropPolicy::DropNewest => {
                &&& outcome == PushOutcome::DroppedNewest
                &&& after.items == before.items
                &&& after.dropped_oldest == before.dropped_oldest
                &&& after.dropped_newest == bump(before.dropped_newest)
            },
        }
    }
}

/// What one pop does: the oldest item leaves, if there is one.
pub open spec fn pop_post<T>(before: QueueView<T>, item: Option<T>, after: QueueView<T>) -> bool {
    if before.items.len() == 0 {
        item is None && after == before
    } else {
        item == Some(before.items[0]) && after == (QueueView {
            items: before.items.subrange(1, before.items.len() as int),
            ..before
        })
    }
}

impl<T> BoundedMediaQueue<T> {
    #[verifier::type_invariant]
    spec fn well_formed(self) -> bool {
        0 < self.capacity && self.items@.len() <= self.capacity
    }

    /// Creates an empty queue; a zero capacity is refused.
    pub fn new(capacity: usize, policy: DropPolicy) -> (result: Result<Self, QueueError>)
        ensures
            capacity == 0 ==> result == Err::<Self, QueueError>(QueueError::ZeroCapacity),
            capacity > 0 ==> (result matches Ok(queue) && queue@ == (QueueView::<T> {
                items: Seq::empty(),
                capacity,
                policy,
                pushed: 0,
                dropped_oldest: 0,
                dropped_newest: 0,
            })),
    {
        if capacity == 0 {
            return Err(QueueError::ZeroCapacity);
        }
        Ok(
            BoundedMediaQueue {
                items: VecDeque::new(),
                capacity,
                policy,
                pushed: 0,
                dropped_oldest: 0,
                dropped_newest: 0,
            },
        )
    }

    /// Queues one item under the queue's drop policy.
    pub fn push(&mut self, item: T) -> (outcome: PushOutcome)
        ensures
            push_post(old(self)@, item, outcome, final(self)@),
    {
        proof {
            use_type_invariant(&*self);
        }
        self.pushed = self.pushed.saturating_add(1);
        if self.items.len() < self.capacity {
            let mut items = VecDeque::new();
            std::mem::swap(&mut items, &mut self.items);
            items.push_back(item);
            self.items = items;
            return PushOutcome::Accepted;
        }
        match self.policy {
            DropPolicy::DropOldest => {
                let mut items = VecDeque::new();
                std::mem::swap(&mut items, &mut self.items);
                let _ = items.pop_front();
                items.push_back(item);
                self.items = items;
                self.dropped_oldest = self.dropped_oldest.saturating_add(1);
                PushOutcome::DroppedOldest
            },
            DropPolicy::DropNewest => {
                self.dropped_newest = self.dropped_newest.saturating_add(1);
                PushOutcome::DroppedNewest
            },
        }
    }

    /// Removes and returns the oldest item.
    pub fn pop(&mut self) -> (item: Option<T>)
        ensures
            pop_post(old(self)@, item, final(self)@),
    {
        proof {
            use_type_invariant(&*self);
        }
        let mut items = VecDeque::new();
        std::mem::swap(&mut items, &mut self.items);
        let item = items.pop_front();
        self.items = items;
        item
    }

    /// Borrows the oldest queued item without removing it.
    pub fn front(&self) -> (item: Option<&T>)
        ensures
            self@.items.len() == 0 ==> item is None,
            self@.items.len() > 0 ==> item == Some(&self@.items[0]),
    {
        if self.items.len() == 0 {
            None
        } else {
            Some(&self.items[0])
        }
    }

    /// The queued items from oldest to newest.
    pub fn iter(&self) -> (items: Vec<&T>)
        ensures
            items@.len() == self@.items.len(),
            forall|i: int| 0 <= i < items@.len() ==> *items@[i] == self@.items[i],
    {
        let mut items: Vec<&T> = Vec::new();
        let mut index: usize = 0;
        while index < self.items.len()
            invariant
                index <= self@.items.len(),
                items@.len() == index,
                forall|i: int| 0 <= i < index ==> *items@[i] == self@.items[i],
            decreases self.items.len() - index,
        {
            items.push(&self.items[index]);
            index = index + 1;
        }
        items
    }

    /// The number of queued items.
    ///
    /// The bound always holds: the capacity is positive and never exceeded.
    pub fn len(&self) -> (len: usize)
        ensures
            len == self@.items.len(),
            0 < self@.capacity,
            len <= self@.capacity,
    {
        proof {
            use_type_invariant(self);
        }
        self.items.len()
    }

    /// The bound on queued items.
    pub fn capacity(&self) -> (capacity: usize)
        ensures
            capacity == self@.capacity,
    {
        self.capacity
    }

    /// Whether no item is queued.
    pub fn is_empty(&self) -> (empty: bool)
        ensures
            empty == (self@.items.len() == 0),
    {
        self.items.len() == 0
    }

    /// Removes all retained items and returns the number released.
    ///
    /// The queue remains usable with the same bounded capacity and counters;
    /// this is intended for terminal media cleanup where historical push/drop
    /// metrics must remain observable while queued payloads are reclaimed.
    pub fn clear(&mut self) -> (released: usize)
        ensures
            released == old(self)@.items.len(),
            final(self)@ == (QueueView { items: Seq::<T>::empty(), ..old(self)@ }),
    {
        proof {
            use_type_invariant(&*self);
        }
        let released = self.items.len();
        self.items = VecDeque::new();
        released
    }

    /// Current depth, bound and lifetime counters.
    pub fn stats(&self) -> (stats: QueueStats)
        ensures
            stats == (QueueStats {
                depth: self@.items.len() as usize,
                capacity: self@.capacity,
                pushed: self@.pushed,
                dropped_oldest: self@.dropped_oldest,
                dropped_newest: self@.dropped_newest,
            }),
            stats.depth <= stats.capacity,
    {
        proof {
            use_type_invariant(self);
        }
        QueueStats {
            depth: self.items.len(),
            capacity: self.capacity,
            pushed: self.pushed,
            dropped_oldest: self.dropped_oldest,
            dropped_newest: self.dropped_newest,
        }
    }
}

/// The G.711 companding laws a frame can be carried in.
#[derive(Clone, Copy, Debug, PartialEq, Eq, Structural)]
pub enum AudioCodec {
    /// G.711 u-law.
    Pcmu,
    /// G.711 A-law.
    Pcma,
}

/// One frame of linear PCM audio with its RTP timestamp and codec.
#[derive(Clone, Debug, PartialEq, Eq)]
pub struct AudioFrame {
    pub timestamp: u32,
    pub codec: AudioCodec,
    pub sample_rate: u32,
    pub samples: Vec<i16>,
}

/// Queue configuration for the two directions of an AI media bridge.
#[derive(Clone, Copy, Debug, PartialEq, Eq, Structural)]
pub struct MediaBridgeConfig {
    pub to_ai_capacity: usize,
    pub from_ai_capacity: usize,
    pub to_ai_policy: DropPolicy,
    pub from_ai_policy: DropPolicy,
}

impl Default for MediaBridgeConfig {
    fn default() -> (config: Self)
        ensures
            config == (MediaBridgeConfig {
                to_ai_capacity: 50,
                from_ai_capacity: 50,
                to_ai_policy: DropPolicy::DropOldest,
                from_ai_policy: DropPolicy::DropOldest,
            }),
    {
        MediaBridgeConfig {
            to_ai_capacity: 50,
            from_ai_capacity: 50,
            to_ai_policy: DropPolicy::DropOldest,
            from_ai_policy: DropPolicy::DropOldest,
        }
    }
}

/// Bounded, bidirectional audio handoff between the RTP/media plane and an AI
/// application. The bridge is transport-agnostic; a WebSocket or another
/// adapter can drive its two queues without allowing unbounded growth.
#[derive(Debug)]
pub struct AudioBridge {
    to_ai: BoundedMediaQueue<AudioFrame>,
    from_ai: BoundedMediaQueue<AudioFrame>,
}

/// The two directions of a bridge.
pub struct AudioBridgeView {
    pub to_ai: QueueView<AudioFrame>,
    pub from_ai: QueueView<AudioFrame>,
}

impl View for AudioBridge {
    type V = AudioBridgeView;

    closed spec fn view(&self) -> AudioBridgeView {
        AudioBridgeView { to_ai: self.to_ai@, from_ai: self.from_ai@ }
    }
}

/// Counters and gauges of both bridge directions.
#[derive(Clone, Copy, Debug, PartialEq, Eq, Structural)]
pub struct MediaBridgeStats {
    pub to_ai: QueueStats,
    pub from_ai: QueueStats,
}

pub open spec fn queue_stats<T>(queue: QueueView<T>) -> QueueStats {
    QueueStats {
        depth: queue.items.len() as usize,
        capacity: queue.capacity,
        pushed: queue.pushed,
        dropped_oldest: queue.dropped_oldest,
        dropped_newest: queue.dropped_newest,
    }
}

impl AudioBridge {
    /// Creates both direction queues; a zero capacity in either is refused.
    pub fn new(config: MediaBridgeConfig) -> (result: Result<Self, QueueError>)
        ensures
            config.to_ai_capacity == 0 || config.from_ai_capacity == 0 ==> result == Err::<
                Self,
                QueueError,
            >(QueueError::ZeroCapacity),
            config.to_ai_capacity > 0 && config.from_ai_capacity > 0 ==> (result matches Ok(bridge)
                && bridge@.to_ai == (QueueView::<AudioFrame> {
                items: Seq::empty(),
                capacity: config.to_ai_capacity,
                policy: config.to_ai_policy,
                pushed: 0,
                dropped_oldest: 0,
                dropped_newest: 0,
            }) && bridge@.from_ai == (QueueView::<AudioFrame> {
                items: Seq::empty(),
                capacity: config.from_ai_capacity,
                policy: config.from_ai_policy,
                pushed: 0,
                dropped_oldest: 0,
                dropped_newest: 0,
            })),
    {
        let to_ai = match BoundedMediaQueue::new(config.to_ai_capacity, config.to_ai_policy) {
            Ok(queue) => queue,
            Err(error) => return Err(error),
        };
        let from_ai = match BoundedMediaQueue::new(config.from_ai_capacity, config.from_ai_policy) {
            Ok(queue) => queue,
            Err(error) => return Err(error),
        };
        Ok(AudioBridge { to_ai, from_ai })
    }

    /// Queues caller audio for the AI application.
    pub fn push_to_ai(&mut self, frame: AudioFrame) -> (outcome: PushOutcome)
        ensures
            push_post(old(self)@.to_ai, frame, outcome, final(self)@.to_ai),
            final(self)@.from_ai == old(self)@.from_ai,
    {
        self.to_ai.push(frame)
    }

    /// Takes the oldest frame waiting for the AI application.
    pub fn pop_for_ai(&mut self) -> (frame: Option<AudioFrame>)
        ensures
            pop_post(old(self)@.to_ai, frame, final(self)@.to_ai),
            final(self)@.from_ai == old(self)@.from_ai,
    {
        self.to_ai.pop()
    }

    /// Borrows the oldest frame waiting for the AI application without
    /// removing it from the bounded queue.
    pub fn peek_for_ai(&self) -> (frame: Option<&AudioFrame>)
        ensures
            self@.to_ai.items.len() == 0 ==> frame is None,
            self@.to_ai.items.len() > 0 ==> frame == Some(&self@.to_ai.items[0]),
    {
        self.to_ai.front()
    }

    /// Queues AI audio for the RTP side.
    pub fn push_from_ai(&mut self, frame: AudioFrame) -> (outcome: PushOutcome)
        ensures
            push_post(old(self)@.from_ai, frame, outcome, final(self)@.from_ai),
            final(self)@.to_ai == old(self)@.to_ai,
    {
        self.from_ai.push(frame)
    }

    /// Takes the oldest frame destined for RTP.
    pub fn pop_for_rtp(&mut self) -> (frame: Option<AudioFrame>)
        ensures
            pop_post(old(self)@.from_ai, frame, final(self)@.from_ai),
            final(self)@.to_ai == old(self)@.to_ai,
    {
        self.from_ai.pop()
    }

    /// Borrows the next frame destined for RTP without removing it.
    pub fn peek_for_rtp(&self) -> (frame: Option<&AudioFrame>)
        ensures
            self@.from_ai.items.len() == 0 ==> frame is None,
            self@.from_ai.items.len() > 0 ==> frame == Some(&self@.from_ai.items[0]),
    {
        self.from_ai.front()
    }

    /// Counters and gauges of both directions.
    pub fn stats(&self) -> (stats: MediaBridgeStats)
        ensures
            stats == (MediaBridgeStats {
                to_ai: queue_stats(self@.to_ai),
                from_ai: queue_stats(self@.from_ai),
            }),
    {
        MediaBridgeStats { to_ai: self.to_ai.stats(), from_ai: self.from_ai.stats() }
    }

    /// Releases every queued frame in both directions, keeping the counters.
    pub fn clear(&mut self) -> (released: (usize, usize))
        ensures
            released == (old(self)@.to_ai.items.len() as usize, old(self)@.from_ai.items.len() as usize),
            final(self)@.to_ai == (QueueView { items: Seq::<AudioFrame>::empty(), ..old(self)@.to_ai }),
            final(self)@.from_ai == (QueueView {
                items: Seq::<AudioFrame>::empty(),
                ..old(self)@.from_ai
            }),
    {
        (self.to_ai.clear(), self.from_ai.clear())
    }
}

/// The scale of a G.711 segment: two to the power of the segment number.
pub open spec fn segment_scale(segment: int) -> int {
    if segment <= 0 {
        1
    } else if segment == 1 {
        2
    } else if segment == 2 {
        4
    } else if segment == 3 {
        8
    } else if segment == 4 {
        16
    } else if segment == 5 {
        32
    } else if segment == 6 {
        64
    } else {
        128
    }
}

/// The segment of a magnitude: the number of doublings of 256 it reaches,
/// at most seven.
pub open spec fn segment_of(magnitude: int) -> int {
    if magnitude >= 0x4000 {
        7
    } else if magnitude >= 0x2000 {
        6
    } else if magnitude >= 0x1000 {
        5
    } else if magnitude >= 0x800 {
        4
    } else if magnitude >= 0x400 {
        3
    } else if magnitude >= 0x200 {
        2
    } else if magnitude >= 0x100 {
        1
    } else {
        0
    }
}

/// The linear value of a u-law code. The complemented code holds the sign
/// (bit 7), the segment (bits 4 to 6) and the mantissa (bits 0 to 3); the
/// magnitude is the biased mantissa scaled by the segment, less the bias.
pub open spec fn ulaw_decode(encoded: u8) -> int {
    let code = 255 - encoded;
    let magnitude = ((code % 16) * 8 + 132) * segment_scale((code / 16) % 8) - 132;
    if code >= 128 {
        -magnitude
    } else {
        magnitude
    }
}

/// The u-law code of a sample: the magnitude, clipped to 32635 and biased by
/// 132, is split into its segment and the four bits below the segment's
/// leading bit; sign, segment and mantissa are complemented.
pub open spec fn ulaw_encode(sample: i16) -> u8 {
    let magnitude = if sample < 0 {
        -(sample as int)
    } else {
        sample as int
    };
    let biased = (if magnitude < 32635 {
        magnitude
    } else {
        32635
    }) + 132;
    let segment = ulaw_segment(biased);
    let mantissa = (biased / (8 * segment_scale(segment))) % 16;
    let sign = if sample < 0 {
        128int
    } else {
        0
    };
    (255 - (sign + segment * 16 + mantissa)) as u8
}

/// The u-law segment of a biased magnitude: the largest segment whose
/// threshold (128 doubled once per segment) it reaches, at most seven.
pub open spec fn ulaw_segment(biased: int) -> int {
    segment_of(biased)
}

/// The linear value of an A-law code. The code with its even bits inverted
/// holds the sign (bit 7, set for non-negative), the segment and the
/// mantissa; segment zero is linear, the others are offset and scaled.
pub open spec fn alaw_decode(encoded: u8) -> int {
    let code = (encoded ^ 0x55) as int;
    let segment = (code / 16) % 8;
    let mantissa = code % 16;
    let magnitude = if segment == 0 {
        mantissa * 16 + 8
    } else {
        (mantissa * 16 + 264) * segment_scale(segment - 1)
    };
    if code >= 128 {
        magnitude
    } else {
        -magnitude
    }
}

/// The A-law code of a sample: the magnitude (one less for negative
/// samples) is split into its segment and the four bits below the segment's
/// leading bit, and the even bits of the result are inverted.
pub open spec fn alaw_encode(sample: i16) -> u8 {
    let magnitude = if sample < 0 {
        -(sample as int) - 1
    } else {
        sample as int
    };
    let segment = segment_of(magnitude);
    let mantissa = if segment == 0 {
        magnitude / 16
    } else {
        (magnitude / (8 * segment_scale(segment))) % 16
    };
    let sign = if sample >= 0 {
        128int
    } else {
        0
    };
    ((sign + segment * 16 + mantissa) as u8) ^ 0x55u8
}

proof fn lemma_shift_scale(x: i32, shift: i32)
    requires
        0 <= x < 0x10000,
        0 <= shift <= 7,
    ensures
        x << shift == x * segment_scale(shift as int),
        x >> shift == x as int / segment_scale(shift as int),
        x >> ((shift + 3) as i32) == x as int / (8 * segment_scale(shift as int)),
{
    if shift == 0 {
        assert(0 <= x < 0x10000 ==> x << 0i32 == x * 1 && x >> 0i32 == x / 1 && x >> 3i32
            == x / 8) by (bit_vector);
    } else if shift == 1 {
        assert(0 <= x < 0x10000 ==> x << 1i32 == x * 2 && x >> 1i32 == x / 2 && x >> 4i32
            == x / 16) by (bit_vector);
    } else if shift == 2 {
        assert(0 <= x < 0x10000 ==> x << 2i32 == x * 4 && x >> 2i32 == x / 4 && x >> 5i32
            == x / 32) by (bit_vector);
    } else if shift == 3 {
        assert(0 <= x < 0x10000 ==> x << 3i32 == x * 8 && x >> 3i32 == x / 8 && x >> 6i32
            == x / 64) by (bit_vector);
    } else if shift == 4 {
        assert(0 <= x < 0x10000 ==> x << 4i32 == x * 16 && x >> 4i32 == x / 16 && x >> 7i32
            == x / 128) by (bit_vector);
    } else if shift == 5 {
        assert(0 <= x < 0x10000 ==> x << 5i32 == x * 32 && x >> 5i32 == x / 32 && x >> 8i32
            == x / 256) by (bit_vector);
    } else if shift == 6 {
        assert(0 <= x < 0x10000 ==> x << 6i32 == x * 64 && x >> 6i32 == x / 64 && x >> 9i32
            == x / 512) by (bit_vector);
    } else {
        assert(0 <= x < 0x10000 ==> x << 7i32 == x * 128 && x >> 7i32 == x / 128 && x >> 10i32
            == x / 1024) by (bit_vector);
    }
}

proof fn lemma_scale_bounds(segment: int)
    ensures
        1 <= segment_scale(segment) <= 128,
        segment < 7 ==> segment_scale(segment) <= 64,
{
}

proof fn lemma_low_bits(x: i32)
    by (bit_vector)
    requires
        0 <= x < 0x10000,
    ensures
        x & 0x0f == x - 16 * (x / 16),
        (x & 0x70) >> 4 == (x / 16) % 8,
        (x & 0x80 != 0) == ((x / 128) % 2 == 1),
        x >> 3 == x / 8,
        x >> 4 == x / 16,
{
}

/// Decodes one u-law code to a linear sample.
pub fn ulaw_to_linear(encoded: u8) -> (sample: i16)
    ensures
        sample == ulaw_decode(encoded),
{
    let value = (!encoded) as i32;
    proof {
        assert((!encoded) as int == 255 - encoded) by (bit_vector);
        lemma_low_bits(value);
        let code = 255 - encoded;
        assert(value & 0x0f == code % 16);
        assert((value & 0x70) >> 4 == (code / 16) % 8);
        assert((value & 0x80 != 0) == (code >= 128));
        lemma_shift_scale(value & 0x0f, 3);
        lemma_shift_scale((((value & 0x0f) << 3) + 0x84) as i32, (value & 0x70) >> 4);
        lemma_scale_bounds(((value & 0x70) >> 4) as int);
        let biased = (code % 16) * 8 + 132;
        let scale = segment_scale((code / 16) % 8);
        assert(biased * scale <= 252 * 128) by (nonlinear_arith)
            requires
                0 <= biased <= 252,
                1 <= scale <= 128,
        ;
        assert(biased * scale >= 0) by (nonlinear_arith)
            requires
                0 <= biased,
                1 <= scale,
        ;
    }
    let mut sample: i32 = ((value & 0x0f) << 3) + 0x84;
    sample = sample << ((value & 0x70) >> 4);
    sample = if value & 0x80 != 0 {
        0x84 - sample
    } else {
        sample - 0x84
    };
    sample as i16
}

proof fn lemma_shift_down(x: i32, segment: i32)
    requires
        0 <= x < 0x10000,
        0 <= segment <= 7,
    ensures
        x >> ((segment + 3) as i32) == x as int / (8 * segment_scale(segment as int)),
{
    lemma_shift_scale(x, segment);
}

proof fn lemma_pack_fields(sign: i32, segment: i32, mantissa: i32)
    by (bit_vector)
    requires
        sign == 0 || sign == 0x80,
        0 <= segment <= 7,
        0 <= mantissa <= 15,
    ensures
        sign | (segment << 4) | mantissa == sign + segment * 16 + mantissa,
        ((!(sign | (segment << 4) | mantissa)) as u8) as int == 255 - (sign + segment * 16 + mantissa),
        ((sign | (segment << 4) | mantissa) as u8) as int == sign + segment * 16 + mantissa,
{
}

/// Encodes one linear sample as a u-law code.
pub fn linear_to_ulaw(sample: i16) -> (encoded: u8)
    ensures
        encoded == ulaw_encode(sample),
{
    let bias: i32 = 0x84;
    let clip: i32 = 32635;
    let mut value = sample as i32;
    let sign: i32 = if value < 0 {
        value = -value;
        0x80
    } else {
        0
    };
    value = (if value < clip {
        value
    } else {
        clip
    }) + bias;
    let mut exponent: i32 = 7;
    proof {
        lemma_shift_scale(0x80, exponent);
    }
    // Segment boundaries are powers of two starting at 2^7 (the exponent
    // field is effectively the high bit position after the u-law bias).
    while exponent > 0 && value < (0x80 << exponent)
        invariant
            0 <= exponent <= 7,
            132 <= value <= 32767,
            0x80i32 << exponent == 0x80 * segment_scale(exponent as int),
            exponent < 7 ==> value >= 0x80 * segment_scale(exponent + 1) ==> false,
        decreases exponent,
    {
        exponent = exponent - 1;
        proof {
            lemma_shift_scale(0x80, exponent);
        }
    }
    proof {
        lemma_shift_down(value, exponent);
    }
    let mantissa = (value >> (exponent + 3)) & 0x0f;
    proof {
        lemma_low_bits(value >> (exponent + 3));
        lemma_pack_fields(sign, exponent, mantissa);
    }
    !(sign | (exponent << 4) | mantissa) as u8
}

/// Decodes one A-law code to a linear sample.
pub fn alaw_to_linear(encoded: u8) -> (sample: i16)
    ensures
        sample == alaw_decode(encoded),
{
    let value = encoded ^ 0x55;
    proof {
        lemma_low_bits(value as i32);
        assert(((value & 0x0f) as i32) == (value as i32) & 0x0f && ((value & 0x70) as i32) == (
        value as i32) & 0x70 && ((value & 0x80) == 0) == ((value as i32) & 0x80 == 0)) by (bit_vector);
    }
    let mut sample = ((value & 0x0f) as i32) << 4;
    let segment = ((value & 0x70) as i32) >> 4;
    proof {
        let code = (encoded ^ 0x55) as int;
        assert(value as int == code);
        assert((value & 0x0f) as int == code % 16);
        assert(segment == (code / 16) % 8);
        assert(((value & 0x80) == 0) == (code < 128));
        lemma_shift_scale((value & 0x0f) as i32, 4);
        lemma_scale_bounds(segment - 1);
        let biased = (code % 16) * 16 + 264;
        let scale = segment_scale(segment - 1);
        assert(biased * scale <= 504 * 64) by (nonlinear_arith)
            requires
                0 <= biased <= 504,
                1 <= scale <= 64,
        ;
        assert(biased * scale >= 0) by (nonlinear_arith)
            requires
                0 <= biased,
                1 <= scale,
        ;
    }
    if segment == 0 {
        sample = sample + 8;
    } else if segment == 1 {
        sample = sample + 0x108;
    } else {
        sample = sample + 0x108;
        proof {
            lemma_shift_scale(sample, (segment - 1) as i32);
        }
        sample = sample << (segment - 1);
    }
    if value & 0x80 == 0 {
        sample = -sample;
    }
    sample as i16
}

proof fn lemma_leading_zeros_segment(magnitude: u32)
    requires
        256 <= magnitude < 32768,
    ensures
        17 <= magnitude.leading_zeros() <= 23,
        31 - magnitude.leading_zeros() - 7 == segment_of(magnitude as int),
{
    vstd::std_specs::bits::axiom_u32_leading_zeros(magnitude);
    let zeros = magnitude.leading_zeros();
    assert({
        &&& 17 <= zeros <= 23
        &&& (magnitude >= 0x4000 ==> zeros == 17)
        &&& (0x2000 <= magnitude < 0x4000 ==> zeros == 18)
        &&& (0x1000 <= magnitude < 0x2000 ==> zeros == 19)
        &&& (0x800 <= magnitude < 0x1000 ==> zeros == 20)
        &&& (0x400 <= magnitude < 0x800 ==> zeros == 21)
        &&& (0x200 <= magnitude < 0x400 ==> zeros == 22)
        &&& (magnitude < 0x200 ==> zeros == 23)
    }) by (bit_vector)
        requires
            256 <= magnitude < 32768,
            zeros <= 32,
            zeros < 32 ==> (magnitude >> ((31 - zeros) as u32)) & 1u32 != 0u32,
            magnitude >> ((32 - zeros) as u32) == 0,
    ;
}

/// Encodes one linear sample as an A-law code.
pub fn linear_to_alaw(sample: i16) -> (encoded: u8)
    ensures
        encoded == alaw_encode(sample),
{
    let sign: i32 = if sample >= 0 {
        0x80
    } else {
        0
    };
    let magnitude: i32 = if sample < 0 {
        -(sample as i32) - 1
    } else {
        sample as i32
    };
    let magnitude = if magnitude < 0 {
        0
    } else {
        magnitude
    };
    let (segment, mantissa) = if magnitude >= 256 {
        proof {
            lemma_leading_zeros_segment(magnitude as u32);
        }
        let leading = (magnitude as u32).leading_zeros() as i32;
        // At least 256, so the leading bit is at position 8 or above.
        let segment = (31 - leading) - 7;
        proof {
            lemma_shift_down(magnitude, segment);
            lemma_low_bits(magnitude >> (segment + 3));
        }
        (segment, (magnitude >> (segment + 3)) & 0x0f)
    } else {
        proof {
            lemma_low_bits(magnitude);
        }
        (0, magnitude >> 4)
    };
    proof {
        lemma_pack_fields(sign, segment, mantissa);
        assert(((sign | (segment << 4) | mantissa) as u8) ^ 0x55u8 == ((sign + segment * 16
            + mantissa) as u8) ^ 0x55u8);
    }
    ((sign | (segment << 4) | mantissa) as u8) ^ 0x55
}


/// The linear value of a G.711 code under a codec.
pub open spec fn codec_decode(codec: AudioCodec, encoded: u8) -> int {
    match codec {
        AudioCodec::Pcmu => ulaw_decode(encoded),
        AudioCodec::Pcma => alaw_decode(encoded),
    }
}

/// The G.711 code of a linear sample under a codec.
pub open spec fn codec_encode(codec: AudioCodec, sample: i16) -> u8 {
    match codec {
        AudioCodec::Pcmu => ulaw_encode(sample),
        AudioCodec::Pcma => alaw_encode(sample),
    }
}

/// Decodes G.711 codes to linear samples, one sample per code.
pub fn decode(codec: AudioCodec, encoded: &[u8]) -> (samples: Vec<i16>)
    ensures
        samples@.len() == encoded@.len(),
        forall|i: int| 0 <= i < encoded@.len() ==> samples@[i] == codec_decode(codec, #[trigger] encoded@[i]),
{
    let mut samples: Vec<i16> = Vec::new();
    let mut index: usize = 0;
    while index < encoded.len()
        invariant
            index <= encoded@.len(),
            samples@.len() == index,
            forall|i: int| 0 <= i < index ==> samples@[i] == codec_decode(codec, #[trigger] encoded@[i]),
        decreases encoded.len() - index,
    {
        let sample = match codec {
            AudioCodec::Pcmu => ulaw_to_linear(encoded[index]),
            AudioCodec::Pcma => alaw_to_linear(encoded[index]),
        };
        samples.push(sample);
        index = index + 1;
    }
    samples
}

/// Encodes linear samples as G.711 codes, one code per sample.
pub fn encode(codec: AudioCodec, samples: &[i16]) -> (encoded: Vec<u8>)
    ensures
        encoded@.len() == samples@.len(),
        forall|i: int| 0 <= i < samples@.len() ==> encoded@[i] == codec_encode(codec, #[trigger] samples@[i]),
{
    let mut encoded: Vec<u8> = Vec::new();
    let mut index: usize = 0;
    while index < samples.len()
        invariant
            index <= samples@.len(),
            encoded@.len() == index,
            forall|i: int| 0 <= i < index ==> encoded@[i] == codec_encode(codec, #[trigger] samples@[i]),
        decreases samples.len() - index,
    {
        let code = match codec {
            AudioCodec::Pcmu => linear_to_ulaw(samples[index]),
            AudioCodec::Pcma => linear_to_alaw(samples[index]),
        };
        encoded.push(code);
        index = index + 1;
    }
    encoded
}

proof fn lemma_field_split(sign: int, segment: int, mantissa: int)
    requires
        sign == 0 || sign == 128,
        0 <= segment <= 7,
        0 <= mantissa <= 15,
    ensures
        (sign + segment * 16 + mantissa) % 16 == mantissa,
        ((sign + segment * 16 + mantissa) / 16) % 8 == segment,
        (sign + segment * 16 + mantissa >= 128) == (sign == 128),
{
}

/// u-law quantization error is bounded: decoding the code of any sample
/// gives back the sample to within 644 (half a step of the top segment plus
/// the clipping above 32635).
pub proof fn law_ulaw_round_trip_error(sample: i16)
    ensures
        -644 <= ulaw_decode(ulaw_encode(sample)) - sample <= 644,
{
    let magnitude = if sample < 0 {
        -(sample as int)
    } else {
        sample as int
    };
    let biased = (if magnitude < 32635 {
        magnitude
    } else {
        32635
    }) + 132;
    let segment = ulaw_segment(biased);
    let scale = segment_scale(segment);
    let quotient = biased / (8 * scale);
    let mantissa = quotient % 16;
    let sign: int = if sample < 0 {
        128
    } else {
        0
    };
    let code = ulaw_encode(sample);
    lemma_scale_bounds(segment);
    assert(0 <= mantissa <= 15);
    lemma_field_split(sign, segment, mantissa);
    assert(255 - code == sign + segment * 16 + mantissa);
    let decoded = ulaw_decode(code);
    if segment == 0 {
        assert(scale == 1);
        assert(quotient == biased / 8);
        assert(16 <= quotient < 32);
        assert(mantissa == quotient - 16);
        assert(decoded == if sign == 128 {
            -((mantissa * 8 + 132) * 1 - 132)
        } else {
            (mantissa * 8 + 132) * 1 - 132
        });
    } else if segment == 1 {
        assert(scale == 2);
        assert(quotient == biased / 16);
        assert(16 <= quotient < 32);
        assert(mantissa == quotient - 16);
        assert(decoded == if sign == 128 {
            -((mantissa * 8 + 132) * 2 - 132)
        } else {
            (mantissa * 8 + 132) * 2 - 132
        });
    } else if segment == 2 {
        assert(scale == 4);
        assert(quotient == biased / 32);
        assert(16 <= quotient < 32);
        assert(mantissa == quotient - 16);
        assert(decoded == if sign == 128 {
            -((mantissa * 8 + 132) * 4 - 132)
        } else {
            (mantissa * 8 + 132) * 4 - 132
        });
    } else if segment == 3 {
        assert(scale == 8);
        assert(quotient == biased / 64);
        assert(16 <= quotient < 32);
        assert(mantissa == quotient - 16);
        assert(decoded == if sign == 128 {
            -((mantissa * 8 + 132) * 8 - 132)
        } else {
            (mantissa * 8 + 132) * 8 - 132
        });
    } else if segment == 4 {
        assert(scale == 16);
        assert(quotient == biased / 128);
        assert(16 <= quotient < 32);
        assert(mantissa == quotient - 16);
        assert(decoded == if sign == 128 {
            -((mantissa * 8 + 132) * 16 - 132)
        } else {
            (mantissa * 8 + 132) * 16 - 132
        });
    } else if segment == 5 {
        assert(scale == 32);
        assert(quotient == biased / 256);
        assert(16 <= quotient < 32);
        assert(mantissa == quotient - 16);
        assert(decoded == if sign == 128 {
            -((mantissa * 8 + 132) * 32 - 132)
        } else {
            (mantissa * 8 + 132) * 32 - 132
        });
    } else if segment == 6 {
        assert(scale == 64);
        assert(quotient == biased / 512);
        assert(16 <= quotient < 32);
        assert(mantissa == quotient - 16);
        assert(decoded == if sign == 128 {
            -((mantissa * 8 + 132) * 64 - 132)
        } else {
            (mantissa * 8 + 132) * 64 - 132
        });
    } else {
        assert(scale == 128);
        assert(quotient == biased / 1024);
        assert(16 <= quotient < 32);
        assert(mantissa == quotient - 16);
        assert(decoded == if sign == 128 {
            -((mantissa * 8 + 132) * 128 - 132)
        } else {
            (mantissa * 8 + 132) * 128 - 132
        });
    }
}

/// A-law quantization error is bounded: decoding the code of any sample
/// gives back the sample to within 512 (half a step of the top segment).
pub proof fn law_alaw_round_trip_error(sample: i16)
    ensures
        -512 <= alaw_decode(alaw_encode(sample)) - sample <= 512,
{
    let magnitude = if sample < 0 {
        -(sample as int) - 1
    } else {
        sample as int
    };
    let segment = segment_of(magnitude);
    let scale = segment_scale(segment);
    let mantissa = if segment == 0 {
        magnitude / 16
    } else {
        (magnitude / (8 * scale)) % 16
    };
    let sign: int = if sample >= 0 {
        128
    } else {
        0
    };
    if segment == 0 {
        assert(scale == 1);
    } else if segment == 1 {
        assert(scale == 2);
        assert(16 <= magnitude / 16 < 32);
    } else if segment == 2 {
        assert(scale == 4);
        assert(16 <= magnitude / 32 < 32);
    } else if segment == 3 {
        assert(scale == 8);
        assert(16 <= magnitude / 64 < 32);
    } else if segment == 4 {
        assert(scale == 16);
        assert(16 <= magnitude / 128 < 32);
    } else if segment == 5 {
        assert(scale == 32);
        assert(16 <= magnitude / 256 < 32);
    } else if segment == 6 {
        assert(scale == 64);
        assert(16 <= magnitude / 512 < 32);
    } else {
        assert(scale == 128);
        assert(16 <= magnitude / 1024 < 32);
    }
    lemma_field_split(sign, segment, mantissa);
    let code = alaw_encode(sample);
    assert((code ^ 0x55u8) as int == sign + segment * 16 + mantissa) by {
        let packed = (sign + segment * 16 + mantissa) as u8;
        assert((packed ^ 0x55u8) ^ 0x55u8 == packed) by (bit_vector);
    }
}

/// Every u-law code but negative zero (0x7f) survives decoding and
/// re-encoding; negative zero comes back as positive zero (0xff).
pub proof fn law_ulaw_codes_round_trip(code: u8)
    ensures
        code != 0x7f ==> ulaw_encode(ulaw_decode(code) as i16) == code,
        code == 0x7f ==> ulaw_encode(ulaw_decode(code) as i16) == 0xff,
{
    let field = 255 - code;
    let segment = (field / 16) % 8;
    let mantissa = field % 16;
    lemma_field_split(if field >= 128 { 128 } else { 0 }, segment, mantissa);
    if segment == 0 {
        assert(segment_scale(segment) == 1);
        assert(((mantissa * 8 + 132) * 1) / 8 == mantissa + 16);
    } else if segment == 1 {
        assert(segment_scale(segment) == 2);
        assert(((mantissa * 8 + 132) * 2) / 16 == mantissa + 16);
    } else if segment == 2 {
        assert(segment_scale(segment) == 4);
        assert(((mantissa * 8 + 132) * 4) / 32 == mantissa + 16);
    } else if segment == 3 {
        assert(segment_scale(segment) == 8);
        assert(((mantissa * 8 + 132) * 8) / 64 == mantissa + 16);
    } else if segment == 4 {
        assert(segment_scale(segment) == 16);
        assert(((mantissa * 8 + 132) * 16) / 128 == mantissa + 16);
    } else if segment == 5 {
        assert(segment_scale(segment) == 32);
        assert(((mantissa * 8 + 132) * 32) / 256 == mantissa + 16);
    } else if segment == 6 {
        assert(segment_scale(segment) == 64);
        assert(((mantissa * 8 + 132) * 64) / 512 == mantissa + 16);
    } else {
        assert(segment_scale(segment) == 128);
        assert(((mantissa * 8 + 132) * 128) / 1024 == mantissa + 16);
    }
}

/// Every A-law code survives decoding and re-encoding.
pub proof fn law_alaw_codes_round_trip(code: u8)
    ensures
        alaw_encode(alaw_decode(code) as i16) == code,
{
    let field = (code ^ 0x55u8) as int;
    let segment = (field / 16) % 8;
    let mantissa = field % 16;
    assert((code ^ 0x55u8) ^ 0x55u8 == code) by (bit_vector);
    lemma_field_split(if field >= 128 { 128 } else { 0 }, segment, mantissa);
    if segment == 0 {
        assert(segment_scale(segment) == 1);
    } else if segment == 1 {
        assert(segment_scale(segment) == 2 && segment_scale(segment - 1) == 1);
        assert((mantissa * 16 + 264 - 1) / 16 == mantissa + 16);
    } else if segment == 2 {
        assert(segment_scale(segment) == 4 && segment_scale(segment - 1) == 2);
        assert(((mantissa * 16 + 264) * 2 - 1) / 32 == mantissa + 16);
        assert(((mantissa * 16 + 264) * 2) / 32 == mantissa + 16);
    } else if segment == 3 {
        assert(segment_scale(segment) == 8 && segment_scale(segment - 1) == 4);
        assert(((mantissa * 16 + 264) * 4 - 1) / 64 == mantissa + 16);
        assert(((mantissa * 16 + 264) * 4) / 64 == mantissa + 16);
    } else if segment == 4 {
        assert(segment_scale(segment) == 16 && segment_scale(segment - 1) == 8);
        assert(((mantissa * 16 + 264) * 8 - 1) / 128 == mantissa + 16);
        assert(((mantissa * 16 + 264) * 8) / 128 == mantissa + 16);
    } else if segment == 5 {
        assert(segment_scale(segment) == 32 && segment_scale(segment - 1) == 16);
        assert(((mantissa * 16 + 264) * 16 - 1) / 256 == mantissa + 16);
        assert(((mantissa * 16 + 264) * 16) / 256 == mantissa + 16);
    } else if segment == 6 {
        assert(segment_scale(segment) == 64 && segment_scale(segment - 1) == 32);
        assert(((mantissa * 16 + 264) * 32 - 1) / 512 == mantissa + 16);
        assert(((mantissa * 16 + 264) * 32) / 512 == mantissa + 16);
    } else {
        assert(segment_scale(segment) == 128 && segment_scale(segment - 1) == 64);
        assert(((mantissa * 16 + 264) * 64 - 1) / 1024 == mantissa + 16);
        assert(((mantissa * 16 + 264) * 64) / 1024 == mantissa + 16);
    }
}

} // verus!
