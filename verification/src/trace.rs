//! Bounded W3C trace context and call correlation primitives.
//!
//! The call engine is runtime agnostic and does not depend on an
//! OpenTelemetry SDK. These types provide the stable, bounded context that an
//! outer OpenTelemetry adapter can turn into spans while preserving the
//! application-owned [`CallId`] across SIP, media, and AI boundaries.

use vstd::prelude::*;
use vstd::string::*;

use crate::call_core::CallId;
use crate::text::{all_graphic, ascii_len, is_bounded_graphic_with_prefix, push_char};

verus! {

broadcast use vstd::string::group_string_axioms;

/// Number of bytes in a W3C trace ID.
pub const TRACE_ID_BYTES: usize = 16;

/// Number of bytes in a W3C span ID.
pub const SPAN_ID_BYTES: usize = 8;

/// Maximum operation-name bytes retained by one span.
pub const MAX_TRACE_OPERATION_BYTES: usize = 64;

const TRACEPARENT_BYTES: usize = 55;

/// Errors raised while parsing or constructing bounded trace data.
#[derive(Clone, Copy, Debug, PartialEq, Eq, Structural)]
pub enum TraceError {
    /// A trace ID was not exactly 16 non-zero bytes encoded as hexadecimal.
    InvalidTraceId,
    /// A span ID was not exactly 8 non-zero bytes encoded as hexadecimal.
    InvalidSpanId,
    /// A traceparent did not use the supported W3C version-00 shape.
    InvalidTraceparent,
    /// A traceparent contained a zero trace or parent span ID.
    ZeroIdentifier,
    /// A child span reused its parent span ID.
    DuplicateSpan,
    /// A span operation name was empty, oversized, or contained controls.
    InvalidOperation,
}

/// The value of one hexadecimal digit, in either case.
pub open spec fn hex_digit(c: char) -> Option<u8> {
    if '0' <= c && c <= '9' {
        Some((c as u32 - 48) as u8)
    } else if 'a' <= c && c <= 'f' {
        Some((c as u32 - 87) as u8)
    } else if 'A' <= c && c <= 'F' {
        Some((c as u32 - 55) as u8)
    } else {
        None
    }
}

pub open spec fn all_hex(s: Seq<char>) -> bool {
    forall|i: int| 0 <= i < s.len() ==> (#[trigger] hex_digit(s[i])) is Some
}

/// The bytes spelled by `2 * count` hexadecimal digits, high nibble first.
pub open spec fn decode_hex_spec(s: Seq<char>, count: nat) -> Option<Seq<u8>> {
    if s.len() == 2 * count && all_hex(s) {
        Some(
            Seq::new(
                count,
                |i: int| (hex_digit(s[2 * i])->Some_0 * 16 + hex_digit(s[2 * i + 1])->Some_0) as u8,
            ),
        )
    } else {
        None
    }
}

/// The lower-case hexadecimal digit of a nibble.
pub open spec fn hex_char(nibble: int) -> char {
    if nibble < 10 {
        (48 + nibble) as char
    } else {
        (87 + nibble) as char
    }
}

/// Lower-case hexadecimal spelling of bytes, two digits per byte.
pub open spec fn encode_hex_spec(bytes: Seq<u8>) -> Seq<char> {
    Seq::new(
        2 * bytes.len(),
        |i: int|
            if i % 2 == 0 {
                hex_char((bytes[i / 2] / 16) as int)
            } else {
                hex_char((bytes[i / 2] % 16) as int)
            },
    )
}

pub open spec fn all_zero(bytes: Seq<u8>) -> bool {
    forall|i: int| 0 <= i < bytes.len() ==> #[trigger] bytes[i] == 0
}

/// Big-endian bytes of a 64-bit value.
pub open spec fn be_bytes(value: u64) -> Seq<u8> {
    Seq::new(8, |i: int| ((value as int / pow256(7 - i)) % 256) as u8)
}

pub open spec fn pow256(k: int) -> int
    decreases k,
{
    if k <= 0 {
        1
    } else {
        256 * pow256(k - 1)
    }
}

fn hex_value(byte: u8) -> (value: Option<u8>)
    ensures
        value == hex_digit(byte as char),
{
    if 48 <= byte && byte <= 57 {
        Some(byte - 48)
    } else if 97 <= byte && byte <= 102 {
        Some(byte - 87)
    } else if 65 <= byte && byte <= 70 {
        Some(byte - 55)
    } else {
        None
    }
}

/// Decodes exactly `count` bytes from `2 * count` hexadecimal digits.
fn decode_hex(value: &str, count: usize) -> (bytes: Option<Vec<u8>>)
    requires
        count <= 32,
    ensures
        match bytes {
            Some(v) => decode_hex_spec(value@, count as nat) == Some(v@),
            None => decode_hex_spec(value@, count as nat) is None,
        },
{
    if !value.is_ascii() {
        proof {
            let i = choose|i: int| 0 <= i < value@.len() && !('\0' <= #[trigger] value@[i] <= '\u{7f}');
            assert(hex_digit(value@[i]) is None);
        }
        return None;
    }
    let len = ascii_len(value);
    if len != count * 2 {
        return None;
    }
    let mut output: Vec<u8> = Vec::new();
    let mut index: usize = 0;
    while index < count
        invariant
            is_ascii(value),
            len == value@.len(),
            len == count * 2,
            index <= count,
            output@.len() == index,
            forall|j: int| 0 <= j < 2 * index ==> (#[trigger] hex_digit(value@[j])) is Some,
            forall|j: int|
                0 <= j < index ==> #[trigger] output@[j] == (hex_digit(value@[2 * j])->Some_0 * 16
                    + hex_digit(value@[2 * j + 1])->Some_0) as u8,
        decreases count - index,
    {
        let high = match hex_value(value.get_ascii(2 * index)) {
            Some(high) => high,
            None => return None,
        };
        let low = match hex_value(value.get_ascii(2 * index + 1)) {
            Some(low) => low,
            None => return None,
        };
        output.push(high * 16 + low);
        index = index + 1;
    }
    proof {
        assert(output@ =~= decode_hex_spec(value@, count as nat)->Some_0);
    }
    Some(output)
}

fn hex_nibble(nibble: u8) -> (c: char)
    requires
        nibble < 16,
    ensures
        c == hex_char(nibble as int),
{
    if nibble < 10 {
        (48 + nibble) as char
    } else {
        (87 + nibble) as char
    }
}

/// Appends the lower-case hexadecimal spelling of `bytes`.
fn push_hex(output: &mut String, bytes: &[u8])
    ensures
        final(output)@ == old(output)@ + encode_hex_spec(bytes@),
{
    let ghost start = output@;
    let mut index: usize = 0;
    while index < bytes.len()
        invariant
            index <= bytes@.len(),
            output@ == start + encode_hex_spec(bytes@.take(index as int)),
        decreases bytes.len() - index,
    {
        let byte = bytes[index];
        push_char(output, hex_nibble(byte / 16));
        push_char(output, hex_nibble(byte % 16));
        proof {
            let next = bytes@.take(index + 1);
            assert(encode_hex_spec(next) =~= encode_hex_spec(bytes@.take(index as int)).push(
                hex_char((byte / 16) as int),
            ).push(hex_char((byte % 16) as int)));
        }
        index = index + 1;
    }
    proof {
        assert(bytes@.take(bytes@.len() as int) =~= bytes@);
    }
}

fn is_all_zero(bytes: &[u8]) -> (zero: bool)
    ensures
        zero == all_zero(bytes@),
{
    let mut index: usize = 0;
    while index < bytes.len()
        invariant
            index <= bytes@.len(),
            forall|j: int| 0 <= j < index ==> #[trigger] bytes@[j] == 0,
        decreases bytes.len() - index,
    {
        if bytes[index] != 0 {
            return false;
        }
        index = index + 1;
    }
    true
}

fn same_bytes(a: &[u8], b: &[u8]) -> (same: bool)
    ensures
        same == (a@ == b@),
{
    if a.len() != b.len() {
        return false;
    }
    let mut index: usize = 0;
    while index < a.len()
        invariant
            a@.len() == b@.len(),
            index <= a@.len(),
            forall|j: int| 0 <= j < index ==> #[trigger] a@[j] == b@[j],
        decreases a.len() - index,
    {
        if a[index] != b[index] {
            return false;
        }
        index = index + 1;
    }
    assert(a@ =~= b@);
    true
}

/// Writes the big-endian bytes of `value` into `output[start..start + 8]`.
fn put_be_bytes(output: &mut [u8; 16], start: usize, value: u64)
    requires
        start == 0 || start == 8,
    ensures
        final(output)@ == old(output)@.take(start as int) + be_bytes(value) + old(
            output,
        )@.skip(start + 8),
{
    let ghost before = output@;
    let mut index: usize = 0;
    while index < 8
        invariant
            start == 0 || start == 8,
            index <= 8,
            output@.len() == 16,
            forall|j: int| 0 <= j < start ==> #[trigger] output@[j] == before[j],
            forall|j: int| start + 8 <= j < 16 ==> #[trigger] output@[j] == before[j],
            forall|j: int| 0 <= j < index ==> #[trigger] output@[start + j] == be_bytes(value)[j],
        decreases 8 - index,
    {
        let shift = (56 - 8 * index) as u64;
        let byte = ((value >> shift) & 0xff) as u8;
        proof {
            lemma_be_byte(value, index as int);
        }
        output[start + index] = byte;
        index = index + 1;
    }
    let ghost expected = before.take(start as int) + be_bytes(value) + before.skip(start + 8);
    assert forall|j: int| 0 <= j < 16 implies output@[j] == expected[j] by {
        if j < start {
        } else if j < start + 8 {
            assert(output@[start + (j - start)] == be_bytes(value)[j - start]);
        } else {
        }
    }
    assert(output@ =~= expected);
}

proof fn lemma_be_byte(value: u64, index: int)
    requires
        0 <= index < 8,
    ensures
        ((value >> ((56 - 8 * index) as u64)) & 0xff) as u8 == be_bytes(value)[index],
{
    assert(pow256(0) == 1 && pow256(1) == 256 && pow256(2) == 0x1_0000 && pow256(3) == 0x100_0000
        && pow256(4) == 0x1_0000_0000 && pow256(5) == 0x100_0000_0000 && pow256(6)
        == 0x1_0000_0000_0000 && pow256(7) == 0x100_0000_0000_0000) by {
        reveal_with_fuel(pow256, 8);
    }
    if index == 0 {
        assert(((value >> 56u64) & 0xff) as u8 == ((value / 0x100_0000_0000_0000) % 256) as u8)
            by (bit_vector);
    } else if index == 1 {
        assert(((value >> 48u64) & 0xff) as u8 == ((value / 0x1_0000_0000_0000) % 256) as u8)
            by (bit_vector);
    } else if index == 2 {
        assert(((value >> 40u64) & 0xff) as u8 == ((value / 0x100_0000_0000) % 256) as u8)
            by (bit_vector);
    } else if index == 3 {
        assert(((value >> 32u64) & 0xff) as u8 == ((value / 0x1_0000_0000) % 256) as u8)
            by (bit_vector);
    } else if index == 4 {
        assert(((value >> 24u64) & 0xff) as u8 == ((value / 0x100_0000) % 256) as u8)
            by (bit_vector);
    } else if index == 5 {
        assert(((value >> 16u64) & 0xff) as u8 == ((value / 0x1_0000) % 256) as u8) by (bit_vector);
    } else if index == 6 {
        assert(((value >> 8u64) & 0xff) as u8 == ((value / 256) % 256) as u8) by (bit_vector);
    } else {
        assert(((value >> 0u64) & 0xff) as u8 == ((value / 1) % 256) as u8) by (bit_vector);
    }
}

/// A validated W3C-compatible 128-bit trace identifier (never all zero).
#[derive(Debug, PartialEq, Eq, Hash)]
pub struct TraceId([u8; 16]);

impl Clone for TraceId {
    fn clone(&self) -> (copy: Self)
        ensures
            copy@ == self@,
    {
        proof {
            use_type_invariant(self);
        }
        TraceId(self.0)
    }
}

impl View for TraceId {
    type V = Seq<u8>;

    closed spec fn view(&self) -> Seq<u8> {
        self.0@
    }
}

/// The deterministic identifier for a sequence number: its big-endian bytes
/// followed by the big-endian bytes of its bitwise complement.
pub open spec fn sequence_trace_bytes(sequence: u64) -> Seq<u8> {
    be_bytes(sequence) + be_bytes(!sequence)
}

impl TraceId {
    #[verifier::type_invariant]
    spec fn well_formed(self) -> bool {
        !all_zero(self.0@)
    }

    /// Parses a lower- or upper-case hexadecimal trace ID.
    pub fn from_hex(value: &str) -> (result: Result<Self, TraceError>)
        ensures
            match decode_hex_spec(value@, 16) {
                None => result == Err::<Self, TraceError>(TraceError::InvalidTraceId),
                Some(bytes) => if all_zero(bytes) {
                    result == Err::<Self, TraceError>(TraceError::ZeroIdentifier)
                } else {
                    result matches Ok(id) && id@ == bytes
                },
            },
    {
        let decoded = match decode_hex(value, TRACE_ID_BYTES) {
            Some(decoded) => decoded,
            None => return Err(TraceError::InvalidTraceId),
        };
        if is_all_zero(decoded.as_slice()) {
            return Err(TraceError::ZeroIdentifier);
        }
        let mut bytes = [0u8; 16];
        let mut index: usize = 0;
        while index < 16
            invariant
                decoded@.len() == 16,
                index <= 16,
                bytes@.len() == 16,
                forall|j: int| 0 <= j < index ==> #[trigger] bytes@[j] == decoded@[j],
            decreases 16 - index,
        {
            bytes[index] = decoded[index];
            index = index + 1;
        }
        assert(bytes@ =~= decoded@);
        Ok(TraceId(bytes))
    }

    /// Creates a deterministic non-zero ID for offline call/replay tests.
    pub fn from_sequence(sequence: u64) -> (id: Self)
        ensures
            id@ == sequence_trace_bytes(sequence),
    {
        let mut bytes = [0u8; 16];
        put_be_bytes(&mut bytes, 0, sequence);
        put_be_bytes(&mut bytes, 8, !sequence);
        proof {
            assert(bytes@ =~= sequence_trace_bytes(sequence));
            lemma_sequence_bytes_nonzero(sequence);
        }
        if is_all_zero(bytes.as_slice()) {
            bytes[15] = 1;
        }
        TraceId(bytes)
    }

    /// Returns the canonical lower-case hexadecimal representation.
    pub fn as_hex(&self) -> (text: String)
        ensures
            text@ == encode_hex_spec(self@),
    {
        let mut output = String::new();
        push_hex(&mut output, self.0.as_slice());
        output
    }

    /// Borrows the raw identifier bytes for an SDK adapter.
    pub fn as_bytes(&self) -> (bytes: &[u8; 16])
        ensures
            bytes@ == self@,
            !all_zero(self@),
    {
        proof {
            use_type_invariant(self);
        }
        &self.0
    }
}

proof fn lemma_sequence_bytes_nonzero(sequence: u64)
    ensures
        !all_zero(sequence_trace_bytes(sequence)),
{
    let bytes = sequence_trace_bytes(sequence);
    if all_zero(bytes) {
        assert(pow256(0) == 1) by {
            reveal_with_fuel(pow256, 1);
        }
        assert(bytes[7] == 0 && bytes[15] == 0);
        assert(((sequence as int / 1) % 256) as u8 == 0);
        assert(((!sequence) as int / 1 % 256) as u8 == 0);
        assert((sequence % 256 == 0) ==> ((!sequence) % 256 == 255)) by (bit_vector);
    }
}

/// A validated W3C-compatible 64-bit span identifier (never all zero).
#[derive(Debug, PartialEq, Eq, Hash)]
pub struct SpanId([u8; 8]);

impl Clone for SpanId {
    fn clone(&self) -> (copy: Self)
        ensures
            copy@ == self@,
    {
        proof {
            use_type_invariant(self);
        }
        SpanId(self.0)
    }
}

impl View for SpanId {
    type V = Seq<u8>;

    closed spec fn view(&self) -> Seq<u8> {
        self.0@
    }
}

impl SpanId {
    #[verifier::type_invariant]
    spec fn well_formed(self) -> bool {
        !all_zero(self.0@)
    }

    /// Parses a lower- or upper-case hexadecimal span ID.
    pub fn from_hex(value: &str) -> (result: Result<Self, TraceError>)
        ensures
            match decode_hex_spec(value@, 8) {
                None => result == Err::<Self, TraceError>(TraceError::InvalidSpanId),
                Some(bytes) => if all_zero(bytes) {
                    result == Err::<Self, TraceError>(TraceError::ZeroIdentifier)
                } else {
                    result matches Ok(id) && id@ == bytes
                },
            },
    {
        let decoded = match decode_hex(value, SPAN_ID_BYTES) {
            Some(decoded) => decoded,
            None => return Err(TraceError::InvalidSpanId),
        };
        if is_all_zero(decoded.as_slice()) {
            return Err(TraceError::ZeroIdentifier);
        }
        let mut bytes = [0u8; 8];
        let mut index: usize = 0;
        while index < 8
            invariant
                decoded@.len() == 8,
                index <= 8,
                bytes@.len() == 8,
                forall|j: int| 0 <= j < index ==> #[trigger] bytes@[j] == decoded@[j],
            decreases 8 - index,
        {
            bytes[index] = decoded[index];
            index = index + 1;
        }
        assert(bytes@ =~= decoded@);
        Ok(SpanId(bytes))
    }

    /// Creates a deterministic non-zero ID for offline call/replay tests: the
    /// big-endian bytes of the sequence, with zero mapped to 1.
    pub fn from_sequence(sequence: u64) -> (id: Self)
        ensures
            id@ == be_bytes(if sequence == 0 {
                1
            } else {
                sequence
            }),
    {
        let mut wide = [0u8; 16];
        put_be_bytes(&mut wide, 0, sequence);
        let mut bytes = [0u8; 8];
        let mut index: usize = 0;
        while index < 8
            invariant
                wide@.len() == 16,
                wide@.take(8) == be_bytes(sequence),
                index <= 8,
                bytes@.len() == 8,
                forall|j: int| 0 <= j < index ==> #[trigger] bytes@[j] == wide@[j],
            decreases 8 - index,
        {
            bytes[index] = wide[index];
            index = index + 1;
        }
        proof {
            assert(bytes@ =~= be_bytes(sequence)) by {
                assert forall|j: int| 0 <= j < 8 implies bytes@[j] == be_bytes(sequence)[j] by {
                    assert(wide@.take(8)[j] == wide@[j]);
                }
            }
            lemma_be_bytes_zero(sequence);
        }
        if is_all_zero(bytes.as_slice()) {
            bytes[7] = 1;
            proof {
                lemma_be_bytes_zero(1);
                assert(bytes@ =~= be_bytes(1));
            }
        }
        SpanId(bytes)
    }

    /// Returns the canonical lower-case hexadecimal representation.
    pub fn as_hex(&self) -> (text: String)
        ensures
            text@ == encode_hex_spec(self@),
    {
        let mut output = String::new();
        push_hex(&mut output, self.0.as_slice());
        output
    }

    /// Borrows the raw identifier bytes for an SDK adapter.
    pub fn as_bytes(&self) -> (bytes: &[u8; 8])
        ensures
            bytes@ == self@,
            !all_zero(self@),
    {
        proof {
            use_type_invariant(self);
        }
        &self.0
    }

    fn same_as(&self, other: &SpanId) -> (same: bool)
        ensures
            same == (self@ == other@),
    {
        same_bytes(self.0.as_slice(), other.0.as_slice())
    }
}

/// The big-endian bytes of a value are all zero exactly when the value is zero.
proof fn lemma_be_bytes_zero(value: u64)
    ensures
        all_zero(be_bytes(value)) <==> value == 0,
        be_bytes(1) =~= seq![0u8, 0, 0, 0, 0, 0, 0, 1],
{
    assert(pow256(0) == 1 && pow256(1) == 256 && pow256(2) == 0x1_0000 && pow256(3) == 0x100_0000
        && pow256(4) == 0x1_0000_0000 && pow256(5) == 0x100_0000_0000 && pow256(6)
        == 0x1_0000_0000_0000 && pow256(7) == 0x100_0000_0000_0000) by {
        reveal_with_fuel(pow256, 8);
    }
    let b = be_bytes(value);
    if all_zero(b) {
        assert(b[0] == 0 && b[1] == 0 && b[2] == 0 && b[3] == 0 && b[4] == 0 && b[5] == 0 && b[6]
            == 0 && b[7] == 0);
        assert(((value / 0x100_0000_0000_0000) % 256) as u8 == 0 && ((value / 0x1_0000_0000_0000)
            % 256) as u8 == 0 && ((value / 0x100_0000_0000) % 256) as u8 == 0 && ((value
            / 0x1_0000_0000) % 256) as u8 == 0 && ((value / 0x100_0000) % 256) as u8 == 0 && ((value
            / 0x1_0000) % 256) as u8 == 0 && ((value / 256) % 256) as u8 == 0 && ((value / 1) % 256) as u8
            == 0 ==> value == 0) by (bit_vector);
    }
}

/// W3C trace flags retained without exposing unbounded vendor state.
#[derive(Clone, Copy, Debug, PartialEq, Eq, Hash, Structural)]
pub struct TraceFlags(u8);

impl View for TraceFlags {
    type V = u8;

    closed spec fn view(&self) -> u8 {
        self.0
    }
}

impl TraceFlags {
    /// Creates flags from the two hexadecimal characters in a traceparent.
    pub fn from_hex(value: &str) -> (result: Result<Self, TraceError>)
        ensures
            match decode_hex_spec(value@, 1) {
                None => result == Err::<Self, TraceError>(TraceError::InvalidTraceparent),
                Some(bytes) => result matches Ok(flags) && flags@ == bytes[0],
            },
    {
        match decode_hex(value, 1) {
            Some(bytes) => Ok(TraceFlags(bytes[0])),
            None => Err(TraceError::InvalidTraceparent),
        }
    }

    /// Creates flags for an SDK adapter.
    pub fn new(value: u8) -> (flags: Self)
        ensures
            flags@ == value,
    {
        TraceFlags(value)
    }

    /// Returns the raw flags byte.
    pub fn value(self) -> (value: u8)
        ensures
            value == self@,
    {
        self.0
    }

    fn push_hex(self, output: &mut String)
        ensures
            final(output)@ == old(output)@ + encode_hex_spec(seq![self@]),
    {
        let bytes = [self.0];
        proof {
            assert(bytes@ =~= seq![self@]);
        }
        push_hex(output, bytes.as_slice());
    }
}

/// Correlation context propagated across one call's subsystem boundaries.
#[derive(Debug, PartialEq, Eq, Hash)]
pub struct TraceContext {
    call_id: CallId,
    trace_id: TraceId,
    span_id: SpanId,
    parent_span_id: Option<SpanId>,
    flags: TraceFlags,
}

/// The abstract trace context: its call, trace and span identities, the
/// parent span it was derived from, and its flags.
pub struct TraceContextView {
    pub call_id: Seq<char>,
    pub trace_id: Seq<u8>,
    pub span_id: Seq<u8>,
    pub parent_span_id: Option<Seq<u8>>,
    pub flags: u8,
}

impl View for TraceContext {
    type V = TraceContextView;

    closed spec fn view(&self) -> TraceContextView {
        TraceContextView {
            call_id: self.call_id@,
            trace_id: self.trace_id@,
            span_id: self.span_id@,
            parent_span_id: match self.parent_span_id {
                Some(parent) => Some(parent@),
                None => None,
            },
            flags: self.flags@,
        }
    }
}

impl Clone for TraceContext {
    fn clone(&self) -> (copy: Self)
        ensures
            copy@ == self@,
    {
        TraceContext {
            call_id: self.call_id.clone(),
            trace_id: self.trace_id.clone(),
            span_id: self.span_id.clone(),
            parent_span_id: self.parent_span_id.clone(),
            flags: self.flags,
        }
    }
}

/// The `traceparent` text of a context: version `00`, then the trace ID, the
/// span ID and the flags in lower-case hexadecimal, separated by dashes.
pub open spec fn traceparent_text(trace_id: Seq<u8>, span_id: Seq<u8>, flags: u8) -> Seq<char> {
    seq!['0', '0', '-'] + encode_hex_spec(trace_id) + seq!['-'] + encode_hex_spec(span_id) + seq![
        '-',
    ] + encode_hex_spec(seq![flags])
}

/// The identities a version-00 `traceparent` carries: exactly 55 ASCII
/// characters, dashes at positions 2, 35 and 52, version `00`, non-zero trace
/// and span IDs and two hexadecimal flag digits.
pub open spec fn parse_traceparent_spec(text: Seq<char>) -> Option<(Seq<u8>, Seq<u8>, u8)> {
    if text.len() != 55 || !vstd::utf8::is_ascii_chars(text) {
        None
    } else if text[2] != '-' || text[35] != '-' || text[52] != '-' {
        None
    } else if text[0] != '0' || text[1] != '0' {
        None
    } else {
        match (
            decode_hex_spec(text.subrange(3, 35), 16),
            decode_hex_spec(text.subrange(36, 52), 8),
            decode_hex_spec(text.subrange(53, 55), 1),
        ) {
            (Some(trace), Some(span), Some(flags)) => if all_zero(trace) || all_zero(span) {
                None
            } else {
                Some((trace, span, flags[0]))
            },
            _ => None,
        }
    }
}

impl TraceContext {
    /// Creates a deterministic root context for a newly allocated call.
    pub fn from_sequence(call_id: CallId, sequence: u64) -> (context: Self)
        ensures
            context@.call_id == call_id@,
            context@.trace_id == sequence_trace_bytes(sequence),
            context@.span_id == be_bytes(if sequence == 0 {
                1
            } else {
                sequence
            }),
            context@.parent_span_id is None,
            context@.flags == 1,
    {
        TraceContext {
            call_id,
            trace_id: TraceId::from_sequence(sequence),
            span_id: SpanId::from_sequence(sequence),
            parent_span_id: None,
            flags: TraceFlags::new(1),
        }
    }

    /// Creates a root context from externally supplied W3C-compatible IDs.
    pub fn root(call_id: CallId, trace_id: TraceId, span_id: SpanId, flags: TraceFlags) -> (context:
        Self)
        ensures
            context@.call_id == call_id@,
            context@.trace_id == trace_id@,
            context@.span_id == span_id@,
            context@.parent_span_id is None,
            context@.flags == flags@,
    {
        TraceContext { call_id, trace_id, span_id, parent_span_id: None, flags }
    }

    /// Parses a W3C `traceparent` received from an upstream service; the
    /// parsed span becomes the current remote parent.
    pub fn from_traceparent(call_id: CallId, value: &str) -> (result: Result<Self, TraceError>)
        ensures
            match parse_traceparent_spec(value@) {
                None => result == Err::<Self, TraceError>(TraceError::InvalidTraceparent),
                Some((trace, span, flags)) => result matches Ok(context) && context@
                    == (TraceContextView {
                    call_id: call_id@,
                    trace_id: trace,
                    span_id: span,
                    parent_span_id: None,
                    flags,
                }),
            },
    {
        if !value.is_ascii() {
            return Err(TraceError::InvalidTraceparent);
        }
        let len = ascii_len(value);
        if len != TRACEPARENT_BYTES {
            return Err(TraceError::InvalidTraceparent);
        }
        // 45 is the ASCII dash and 48 the digit zero.
        if value.get_ascii(2) != 45 || value.get_ascii(35) != 45 || value.get_ascii(52) != 45 {
            return Err(TraceError::InvalidTraceparent);
        }
        if value.get_ascii(0) != 48 || value.get_ascii(1) != 48 {
            return Err(TraceError::InvalidTraceparent);
        }
        let trace_text = value.substring_ascii(3, 35);
        let span_text = value.substring_ascii(36, 52);
        let flags_text = value.substring_ascii(53, 55);
        let trace_id = match TraceId::from_hex(trace_text) {
            Ok(trace_id) => trace_id,
            Err(_) => return Err(TraceError::InvalidTraceparent),
        };
        let span_id = match SpanId::from_hex(span_text) {
            Ok(span_id) => span_id,
            Err(_) => return Err(TraceError::InvalidTraceparent),
        };
        let flags = match TraceFlags::from_hex(flags_text) {
            Ok(flags) => flags,
            Err(error) => return Err(error),
        };
        Ok(TraceContext { call_id, trace_id, span_id, parent_span_id: None, flags })
    }

    /// Returns the application-owned call identifier carried as correlation metadata.
    pub fn call_id(&self) -> (call_id: &CallId)
        ensures
            call_id@ == self@.call_id,
    {
        &self.call_id
    }

    /// Returns the trace ID shared by all child spans.
    pub fn trace_id(&self) -> (trace_id: &TraceId)
        ensures
            trace_id@ == self@.trace_id,
    {
        &self.trace_id
    }

    /// Returns this span's ID.
    pub fn span_id(&self) -> (span_id: &SpanId)
        ensures
            span_id@ == self@.span_id,
    {
        &self.span_id
    }

    /// Returns the parent span when this context was derived with [`Self::child`].
    pub fn parent_span_id(&self) -> (parent: Option<&SpanId>)
        ensures
            match parent {
                Some(span) => self@.parent_span_id == Some(span@),
                None => self@.parent_span_id is None,
            },
    {
        match &self.parent_span_id {
            Some(parent) => Some(parent),
            None => None,
        }
    }

    /// Returns the W3C trace flags.
    pub fn flags(&self) -> (flags: TraceFlags)
        ensures
            flags@ == self@.flags,
    {
        self.flags
    }

    /// Serializes this context as a W3C `traceparent` value.
    pub fn traceparent(&self) -> (text: String)
        ensures
            text@ == traceparent_text(self@.trace_id, self@.span_id, self@.flags),
    {
        let mut output = String::new();
        push_char(&mut output, '0');
        push_char(&mut output, '0');
        push_char(&mut output, '-');
        push_hex(&mut output, self.trace_id.0.as_slice());
        push_char(&mut output, '-');
        push_hex(&mut output, self.span_id.0.as_slice());
        push_char(&mut output, '-');
        self.flags.push_hex(&mut output);
        proof {
            assert(output@ =~= traceparent_text(self@.trace_id, self@.span_id, self@.flags));
        }
        output
    }

    /// Creates a child context while retaining the call and trace IDs.
    pub fn child(&self, span_id: SpanId) -> (result: Result<Self, TraceError>)
        ensures
            span_id@ == self@.span_id ==> result == Err::<Self, TraceError>(TraceError::DuplicateSpan),
            span_id@ != self@.span_id ==> (result matches Ok(child) && child@ == (TraceContextView {
                span_id: span_id@,
                parent_span_id: Some(self@.span_id),
                ..self@
            })),
    {
        if span_id.same_as(&self.span_id) {
            return Err(TraceError::DuplicateSpan);
        }
        Ok(
            TraceContext {
                call_id: self.call_id.clone(),
                trace_id: self.trace_id.clone(),
                span_id,
                parent_span_id: Some(self.span_id.clone()),
                flags: self.flags,
            },
        )
    }

    /// Starts a bounded named span from this context.
    pub fn span(&self, operation: &str) -> (result: Result<TraceSpan, TraceError>)
        ensures
            valid_operation(operation@) ==> (result matches Ok(span) && span@.context == self@
                && span@.operation == operation@),
            !valid_operation(operation@) ==> result == Err::<TraceSpan, TraceError>(
                TraceError::InvalidOperation,
            ),
    {
        TraceSpan::new(self.clone(), operation)
    }
}

/// A span name: non-empty printable ASCII of at most 64 bytes.
pub open spec fn valid_operation(operation: Seq<char>) -> bool {
    0 < operation.len() <= MAX_TRACE_OPERATION_BYTES && all_graphic(operation)
}

/// A bounded operation name paired with a propagated [`TraceContext`].
#[derive(Clone, Debug, PartialEq, Eq, Hash)]
pub struct TraceSpan {
    context: TraceContext,
    operation: String,
}

pub struct TraceSpanView {
    pub context: TraceContextView,
    pub operation: Seq<char>,
}

impl View for TraceSpan {
    type V = TraceSpanView;

    closed spec fn view(&self) -> TraceSpanView {
        TraceSpanView { context: self.context@, operation: self.operation@ }
    }
}

impl TraceSpan {
    /// Creates a span after validating its bounded operation name.
    pub fn new(context: TraceContext, operation: &str) -> (result: Result<Self, TraceError>)
        ensures
            valid_operation(operation@) ==> (result matches Ok(span) && span@.context == context@
                && span@.operation == operation@),
            !valid_operation(operation@) ==> result == Err::<TraceSpan, TraceError>(
                TraceError::InvalidOperation,
            ),
    {
        let empty = "";
        proof {
            reveal_strlit("");
            assert(empty@.is_prefix_of(operation@));
        }
        if !is_bounded_graphic_with_prefix(operation, empty, MAX_TRACE_OPERATION_BYTES) {
            return Err(TraceError::InvalidOperation);
        }
        Ok(TraceSpan { context, operation: operation.to_owned() })
    }

    /// Returns the propagated context, including the stable call ID.
    pub fn context(&self) -> (context: &TraceContext)
        ensures
            context@ == self@.context,
    {
        &self.context
    }

    /// Returns the bounded operation name.
    pub fn operation(&self) -> (operation: &str)
        ensures
            operation@ == self@.operation,
    {
        self.operation.as_str()
    }

    /// Creates a child span with a new span ID and operation name.
    pub fn child(&self, span_id: SpanId, operation: &str) -> (result: Result<Self, TraceError>)
        ensures
            span_id@ == self@.context.span_id ==> result == Err::<Self, TraceError>(
                TraceError::DuplicateSpan,
            ),
            span_id@ != self@.context.span_id && !valid_operation(operation@) ==> result == Err::<
                Self,
                TraceError,
            >(TraceError::InvalidOperation),
            span_id@ != self@.context.span_id && valid_operation(operation@) ==> (result matches Ok(
                span,
            ) && span@.operation == operation@ && span@.context == (TraceContextView {
                span_id: span_id@,
                parent_span_id: Some(self@.context.span_id),
                ..self@.context
            })),
    {
        let context = match self.context.child(span_id) {
            Ok(context) => context,
            Err(error) => return Err(error),
        };
        TraceSpan::new(context, operation)
    }
}


proof fn lemma_hex_char_digit(nibble: int)
    requires
        0 <= nibble < 16,
    ensures
        hex_digit(hex_char(nibble)) == Some(nibble as u8),
        ('\0' <= hex_char(nibble) <= '\u{7f}'),
        hex_char(nibble) != '-',
{
}

/// Decoding the hexadecimal spelling of bytes gives the bytes back.
pub proof fn law_hex_round_trip(bytes: Seq<u8>)
    ensures
        decode_hex_spec(encode_hex_spec(bytes), bytes.len()) == Some(bytes),
{
    let text = encode_hex_spec(bytes);
    assert forall|i: int| 0 <= i < text.len() implies (#[trigger] hex_digit(text[i])) is Some by {
        lemma_hex_char_digit((bytes[i / 2] / 16) as int);
        lemma_hex_char_digit((bytes[i / 2] % 16) as int);
    }
    let decoded = decode_hex_spec(text, bytes.len())->Some_0;
    assert forall|i: int| 0 <= i < bytes.len() implies decoded[i] == bytes[i] by {
        lemma_hex_char_digit((bytes[i] / 16) as int);
        lemma_hex_char_digit((bytes[i] % 16) as int);
        assert(text[2 * i] == hex_char((bytes[i] / 16) as int));
        assert(text[2 * i + 1] == hex_char((bytes[i] % 16) as int));
    }
    assert(decoded =~= bytes);
}

proof fn lemma_hex_ascii(bytes: Seq<u8>)
    ensures
        vstd::utf8::is_ascii_chars(encode_hex_spec(bytes)),
{
    let text = encode_hex_spec(bytes);
    assert forall|i: int| 0 <= i < text.len() implies '\0' <= #[trigger] text[i] <= '\u{7f}' by {
        lemma_hex_char_digit((bytes[i / 2] / 16) as int);
        lemma_hex_char_digit((bytes[i / 2] % 16) as int);
    }
}

proof fn lemma_traceparent_layout(trace_id: Seq<u8>, span_id: Seq<u8>, flags: u8)
    requires
        trace_id.len() == TRACE_ID_BYTES,
        span_id.len() == SPAN_ID_BYTES,
    ensures
        ({
            let text = traceparent_text(trace_id, span_id, flags);
            &&& text.len() == 55
            &&& text[0] == '0' && text[1] == '0'
            &&& text[2] == '-' && text[35] == '-' && text[52] == '-'
            &&& text.subrange(3, 35) == encode_hex_spec(trace_id)
            &&& text.subrange(36, 52) == encode_hex_spec(span_id)
            &&& text.subrange(53, 55) == encode_hex_spec(seq![flags])
        }),
{
    let text = traceparent_text(trace_id, span_id, flags);
    assert(text.subrange(3, 35) =~= encode_hex_spec(trace_id));
    assert(text.subrange(36, 52) =~= encode_hex_spec(span_id));
    assert(text.subrange(53, 55) =~= encode_hex_spec(seq![flags]));
}

proof fn lemma_traceparent_ascii(trace_id: Seq<u8>, span_id: Seq<u8>, flags: u8)
    requires
        trace_id.len() == TRACE_ID_BYTES,
        span_id.len() == SPAN_ID_BYTES,
    ensures
        vstd::utf8::is_ascii_chars(traceparent_text(trace_id, span_id, flags)),
{
    let text = traceparent_text(trace_id, span_id, flags);
    let t = encode_hex_spec(trace_id);
    let s = encode_hex_spec(span_id);
    let f = encode_hex_spec(seq![flags]);
    lemma_hex_ascii(trace_id);
    lemma_hex_ascii(span_id);
    lemma_hex_ascii(seq![flags]);
    assert forall|i: int| 0 <= i < text.len() implies '\0' <= #[trigger] text[i] <= '\u{7f}' by {
        if 3 <= i < 35 {
            assert(text[i] == t[i - 3]);
        } else if 36 <= i < 52 {
            assert(text[i] == s[i - 36]);
        } else if 53 <= i < 55 {
            assert(text[i] == f[i - 53]);
        }
    }
}

/// A context's `traceparent` text parses back to the same trace ID, span ID
/// and flags.
pub proof fn law_traceparent_round_trip(trace_id: Seq<u8>, span_id: Seq<u8>, flags: u8)
    requires
        trace_id.len() == TRACE_ID_BYTES,
        span_id.len() == SPAN_ID_BYTES,
        !all_zero(trace_id),
        !all_zero(span_id),
    ensures
        parse_traceparent_spec(traceparent_text(trace_id, span_id, flags)) == Some(
            (trace_id, span_id, flags),
        ),
{
    lemma_traceparent_layout(trace_id, span_id, flags);
    lemma_traceparent_ascii(trace_id, span_id, flags);
    law_hex_round_trip(trace_id);
    law_hex_round_trip(span_id);
    law_hex_round_trip(seq![flags]);
    assert(seq![flags][0] == flags);
}

/// A text with ASCII upper-case letters folded to lower case.
pub open spec fn lower_ascii(s: Seq<char>) -> Seq<char> {
    s.map_values(|c: char| if 'A' <= c && c <= 'Z' { ((c as u32) + 32) as char } else { c })
}

proof fn lemma_hex_digit_spelling(c: char)
    requires
        hex_digit(c) is Some,
    ensures
        hex_digit(c)->Some_0 < 16,
        hex_char(hex_digit(c)->Some_0 as int) == (if 'A' <= c && c <= 'Z' {
            ((c as u32) + 32) as char
        } else {
            c
        }),
{
}

/// Hexadecimal identifiers have one canonical spelling: the text of the bytes
/// any valid spelling decodes to is that spelling in lower case.
pub proof fn law_hex_spelling_is_lower_case(text: Seq<char>, count: nat)
    requires
        decode_hex_spec(text, count) is Some,
    ensures
        encode_hex_spec(decode_hex_spec(text, count)->Some_0) == lower_ascii(text),
{
    let bytes = decode_hex_spec(text, count)->Some_0;
    let spelled = encode_hex_spec(bytes);
    assert forall|i: int| 0 <= i < text.len() implies #[trigger] spelled[i] == lower_ascii(text)[i] by {
        let k = i / 2;
        let high = text[2 * k];
        let low = text[2 * k + 1];
        assert(hex_digit(high) is Some);
        assert(hex_digit(low) is Some);
        lemma_hex_digit_spelling(high);
        lemma_hex_digit_spelling(low);
        let h = hex_digit(high)->Some_0;
        let l = hex_digit(low)->Some_0;
        assert(bytes[k] == (h * 16 + l) as u8);
        assert(bytes[k] / 16 == h && bytes[k] % 16 == l);
        if i % 2 == 0 {
            assert(i == 2 * k);
        } else {
            assert(i == 2 * k + 1);
        }
    }
    assert(spelled =~= lower_ascii(text));
}

} // verus!
