//! Explicit call identifiers and a deterministic call lifecycle state machine.

use vstd::prelude::*;
use vstd::string::*;

use crate::text::{all_graphic, decimal_digits, is_bounded_graphic_with_prefix, push_decimal};

verus! {

/// Maximum bytes (equivalently, characters: all are ASCII) in an identifier.
pub const MAX_IDENTIFIER_BYTES: usize = 128;

/// A well-formed identifier: non-empty, at most 128 graphic ASCII characters,
/// beginning with its type's stable prefix.
pub open spec fn valid_identifier(value: Seq<char>, prefix: Seq<char>) -> bool {
    &&& 0 < value.len() <= 128
    &&& all_graphic(value)
    &&& prefix.is_prefix_of(value)
}

/// Rejection of text that lacks the stable prefix or printable bytes.
#[derive(Clone, Copy, Debug, PartialEq, Eq, Structural)]
pub struct IdentifierError;

/// The stable prefix of call identifiers (`call_...`).
pub open spec fn call_prefix() -> Seq<char> {
    seq!['c', 'a', 'l', 'l', '_']
}

/// One of the call identifiers: printable ASCII, at most 128 bytes,
/// carrying its stable prefix.
#[derive(Debug, PartialEq, Eq, Hash)]
pub struct CallId(String);

impl View for CallId {
    type V = Seq<char>;

    closed spec fn view(&self) -> Seq<char> {
        self.0@
    }
}

impl Clone for CallId {
    fn clone(&self) -> (copy: Self)
        ensures
            copy == *self,
    {
        proof {
            use_type_invariant(self);
        }
        CallId(self.0.clone())
    }
}

impl CallId {
    #[verifier::type_invariant]
    spec fn well_formed(self) -> bool {
        valid_identifier(self.0@, call_prefix())
    }

    pub fn new(value: &str) -> (result: Result<Self, IdentifierError>)
        ensures
            result is Ok <==> valid_identifier(value@, call_prefix()),
            result matches Ok(id) ==> id@ == value@,
    {
        let prefix = "call_";
        proof {
            reveal_strlit("call_");
            assert(prefix@ =~= call_prefix());
        }
        if !is_bounded_graphic_with_prefix(value, prefix, MAX_IDENTIFIER_BYTES) {
            return Err(IdentifierError);
        }
        Ok(CallId(value.to_owned()))
    }

    pub fn from_sequence(sequence: u64) -> (id: Self)
        ensures
            id@ == call_prefix() + decimal_digits(sequence as nat),
    {
        let prefix = "call_";
        proof {
            reveal_strlit("call_");
            assert(prefix@ =~= call_prefix());
        }
        let mut value = prefix.to_owned();
        push_decimal(&mut value, sequence);
        proof {
            law_sequence_identifiers_are_valid(sequence);
        }
        CallId(value)
    }

    pub fn as_str(&self) -> (text: &str)
        ensures
            text@ == self@,
            is_ascii(text),
    {
        proof {
            use_type_invariant(self);
            crate::text::lemma_graphic_is_ascii(self.0@);
        }
        self.0.as_str()
    }

    /// The identifier text as an owned string (its `Display` rendering).
    pub fn to_string(&self) -> (text: String)
        ensures
            text@ == self@,
    {
        self.0.clone()
    }

    /// Whether two identifiers hold the same text.
    pub fn same_as(&self, other: &Self) -> (same: bool)
        ensures
            same == (self@ == other@),
    {
        self.0 == other.0
    }
}

/// The stable prefix of signaling/media leg identifiers (`leg_...`).
pub open spec fn leg_prefix() -> Seq<char> {
    seq!['l','e','g','_']
}

/// One of the signaling/media leg identifiers: printable ASCII, at most 128 bytes,
/// carrying its stable prefix.
#[derive(Debug, PartialEq, Eq, Hash)]
pub struct LegId(String);

impl View for LegId {
    type V = Seq<char>;

    closed spec fn view(&self) -> Seq<char> {
        self.0@
    }
}

impl Clone for LegId {
    fn clone(&self) -> (copy: Self)
        ensures
            copy == *self,
    {
        proof {
            use_type_invariant(self);
        }
        LegId(self.0.clone())
    }
}

impl LegId {
    #[verifier::type_invariant]
    spec fn well_formed(self) -> bool {
        valid_identifier(self.0@, leg_prefix())
    }

    pub fn new(value: &str) -> (result: Result<Self, IdentifierError>)
        ensures
            result is Ok <==> valid_identifier(value@, leg_prefix()),
            result matches Ok(id) ==> id@ == value@,
    {
        let prefix = "leg_";
        proof {
            reveal_strlit("leg_");
            assert(prefix@ =~= leg_prefix());
        }
        if !is_bounded_graphic_with_prefix(value, prefix, MAX_IDENTIFIER_BYTES) {
            return Err(IdentifierError);
        }
        Ok(LegId(value.to_owned()))
    }

    pub fn from_sequence(sequence: u64) -> (id: Self)
        ensures
            id@ == leg_prefix() + decimal_digits(sequence as nat),
    {
        let prefix = "leg_";
        proof {
            reveal_strlit("leg_");
            assert(prefix@ =~= leg_prefix());
        }
        let mut value = prefix.to_owned();
        push_decimal(&mut value, sequence);
        proof {
            law_sequence_identifiers_are_valid(sequence);
        }
        LegId(value)
    }

    pub fn as_str(&self) -> (text: &str)
        ensures
            text@ == self@,
            is_ascii(text),
    {
        proof {
            use_type_invariant(self);
            crate::text::lemma_graphic_is_ascii(self.0@);
        }
        self.0.as_str()
    }

    /// The identifier text as an owned string (its `Display` rendering).
    pub fn to_string(&self) -> (text: String)
        ensures
            text@ == self@,
    {
        self.0.clone()
    }

    /// Whether two identifiers hold the same text.
    pub fn same_as(&self, other: &Self) -> (same: bool)
        ensures
            same == (self@ == other@),
    {
        self.0 == other.0
    }
}

/// The stable prefix of media stream identifiers (`stream_...`).
pub open spec fn stream_prefix() -> Seq<char> {
    seq!['s','t','r','e','a','m','_']
}

/// One of the media stream identifiers: printable ASCII, at most 128 bytes,
/// carrying its stable prefix.
#[derive(Debug, PartialEq, Eq, Hash)]
pub struct StreamId(String);

impl View for StreamId {
    type V = Seq<char>;

    closed spec fn view(&self) -> Seq<char> {
        self.0@
    }
}

impl Clone for StreamId {
    fn clone(&self) -> (copy: Self)
        ensures
            copy == *self,
    {
        proof {
            use_type_invariant(self);
        }
        StreamId(self.0.clone())
    }
}

impl StreamId {
    #[verifier::type_invariant]
    spec fn well_formed(self) -> bool {
        valid_identifier(self.0@, stream_prefix())
    }

    pub fn new(value: &str) -> (result: Result<Self, IdentifierError>)
        ensures
            result is Ok <==> valid_identifier(value@, stream_prefix()),
            result matches Ok(id) ==> id@ == value@,
    {
        let prefix = "stream_";
        proof {
            reveal_strlit("stream_");
            assert(prefix@ =~= stream_prefix());
        }
        if !is_bounded_graphic_with_prefix(value, prefix, MAX_IDENTIFIER_BYTES) {
            return Err(IdentifierError);
        }
        Ok(StreamId(value.to_owned()))
    }

    pub fn from_sequence(sequence: u64) -> (id: Self)
        ensures
            id@ == stream_prefix() + decimal_digits(sequence as nat),
    {
        let prefix = "stream_";
        proof {
            reveal_strlit("stream_");
            assert(prefix@ =~= stream_prefix());
        }
        let mut value = prefix.to_owned();
        push_decimal(&mut value, sequence);
        proof {
            law_sequence_identifiers_are_valid(sequence);
        }
        StreamId(value)
    }

    pub fn as_str(&self) -> (text: &str)
        ensures
            text@ == self@,
            is_ascii(text),
    {
        proof {
            use_type_invariant(self);
            crate::text::lemma_graphic_is_ascii(self.0@);
        }
        self.0.as_str()
    }

    /// The identifier text as an owned string (its `Display` rendering).
    pub fn to_string(&self) -> (text: String)
        ensures
            text@ == self@,
    {
        self.0.clone()
    }

    /// Whether two identifiers hold the same text.
    pub fn same_as(&self, other: &Self) -> (same: bool)
        ensures
            same == (self@ == other@),
    {
        self.0 == other.0
    }
}

/// The stable prefix of lifecycle event identifiers (`evt_...`).
pub open spec fn event_prefix() -> Seq<char> {
    seq!['e','v','t','_']
}

/// One of the lifecycle event identifiers: printable ASCII, at most 128 bytes,
/// carrying its stable prefix.
#[derive(Debug, PartialEq, Eq, Hash)]
pub struct EventId(String);

impl View for EventId {
    type V = Seq<char>;

    closed spec fn view(&self) -> Seq<char> {
        self.0@
    }
}

impl Clone for EventId {
    fn clone(&self) -> (copy: Self)
        ensures
            copy == *self,
    {
        proof {
            use_type_invariant(self);
        }
        EventId(self.0.clone())
    }
}

impl EventId {
    #[verifier::type_invariant]
    spec fn well_formed(self) -> bool {
        valid_identifier(self.0@, event_prefix())
    }

    pub fn new(value: &str) -> (result: Result<Self, IdentifierError>)
        ensures
            result is Ok <==> valid_identifier(value@, event_prefix()),
            result matches Ok(id) ==> id@ == value@,
    {
        let prefix = "evt_";
        proof {
            reveal_strlit("evt_");
            assert(prefix@ =~= event_prefix());
        }
        if !is_bounded_graphic_with_prefix(value, prefix, MAX_IDENTIFIER_BYTES) {
            return Err(IdentifierError);
        }
        Ok(EventId(value.to_owned()))
    }

    pub fn from_sequence(sequence: u64) -> (id: Self)
        ensures
            id@ == event_prefix() + decimal_digits(sequence as nat),
    {
        let prefix = "evt_";
        proof {
            reveal_strlit("evt_");
            assert(prefix@ =~= event_prefix());
        }
        let mut value = prefix.to_owned();
        push_decimal(&mut value, sequence);
        proof {
            law_sequence_identifiers_are_valid(sequence);
        }
        EventId(value)
    }

    pub fn as_str(&self) -> (text: &str)
        ensures
            text@ == self@,
            is_ascii(text),
    {
        proof {
            use_type_invariant(self);
            crate::text::lemma_graphic_is_ascii(self.0@);
        }
        self.0.as_str()
    }

    /// The identifier text as an owned string (its `Display` rendering).
    pub fn to_string(&self) -> (text: String)
        ensures
            text@ == self@,
    {
        self.0.clone()
    }

    /// Whether two identifiers hold the same text.
    pub fn same_as(&self, other: &Self) -> (same: bool)
        ensures
            same == (self@ == other@),
    {
        self.0 == other.0
    }
}

/// The stable prefix of bridge identifiers (`bridge_...`).
pub open spec fn bridge_prefix() -> Seq<char> {
    seq!['b','r','i','d','g','e','_']
}

/// One of the bridge identifiers: printable ASCII, at most 128 bytes,
/// carrying its stable prefix.
#[derive(Debug, PartialEq, Eq, Hash)]
pub struct BridgeId(String);

impl View for BridgeId {
    type V = Seq<char>;

    closed spec fn view(&self) -> Seq<char> {
        self.0@
    }
}

impl Clone for BridgeId {
    fn clone(&self) -> (copy: Self)
        ensures
            copy == *self,
    {
        proof {
            use_type_invariant(self);
        }
        BridgeId(self.0.clone())
    }
}

impl BridgeId {
    #[verifier::type_invariant]
    spec fn well_formed(self) -> bool {
        valid_identifier(self.0@, bridge_prefix())
    }

    pub fn new(value: &str) -> (result: Result<Self, IdentifierError>)
        ensures
            result is Ok <==> valid_identifier(value@, bridge_prefix()),
            result matches Ok(id) ==> id@ == value@,
    {
        let prefix = "bridge_";
        proof {
            reveal_strlit("bridge_");
            assert(prefix@ =~= bridge_prefix());
        }
        if !is_bounded_graphic_with_prefix(value, prefix, MAX_IDENTIFIER_BYTES) {
            return Err(IdentifierError);
        }
        Ok(BridgeId(value.to_owned()))
    }

    pub fn from_sequence(sequence: u64) -> (id: Self)
        ensures
            id@ == bridge_prefix() + decimal_digits(sequence as nat),
    {
        let prefix = "bridge_";
        proof {
            reveal_strlit("bridge_");
            assert(prefix@ =~= bridge_prefix());
        }
        let mut value = prefix.to_owned();
        push_decimal(&mut value, sequence);
        proof {
            law_sequence_identifiers_are_valid(sequence);
        }
        BridgeId(value)
    }

    pub fn as_str(&self) -> (text: &str)
        ensures
            text@ == self@,
            is_ascii(text),
    {
        proof {
            use_type_invariant(self);
            crate::text::lemma_graphic_is_ascii(self.0@);
        }
        self.0.as_str()
    }

    /// The identifier text as an owned string (its `Display` rendering).
    pub fn to_string(&self) -> (text: String)
        ensures
            text@ == self@,
    {
        self.0.clone()
    }

    /// Whether two identifiers hold the same text.
    pub fn same_as(&self, other: &Self) -> (same: bool)
        ensures
            same == (self@ == other@),
    {
        self.0 == other.0
    }
}

/// The stable prefix of idempotency keys of call commands (`cmd_...`).
pub open spec fn command_prefix() -> Seq<char> {
    seq!['c','m','d','_']
}

/// One of the idempotency keys of call commands: printable ASCII, at most 128 bytes,
/// carrying its stable prefix.
#[derive(Debug, PartialEq, Eq, Hash)]
pub struct CommandId(String);

impl View for CommandId {
    type V = Seq<char>;

    closed spec fn view(&self) -> Seq<char> {
        self.0@
    }
}

impl Clone for CommandId {
    fn clone(&self) -> (copy: Self)
        ensures
            copy == *self,
    {
        proof {
            use_type_invariant(self);
        }
        CommandId(self.0.clone())
    }
}

impl CommandId {
    #[verifier::type_invariant]
    spec fn well_formed(self) -> bool {
        valid_identifier(self.0@, command_prefix())
    }

    pub fn new(value: &str) -> (result: Result<Self, IdentifierError>)
        ensures
            result is Ok <==> valid_identifier(value@, command_prefix()),
            result matches Ok(id) ==> id@ == value@,
    {
        let prefix = "cmd_";
        proof {
            reveal_strlit("cmd_");
            assert(prefix@ =~= command_prefix());
        }
        if !is_bounded_graphic_with_prefix(value, prefix, MAX_IDENTIFIER_BYTES) {
            return Err(IdentifierError);
        }
        Ok(CommandId(value.to_owned()))
    }

    pub fn from_sequence(sequence: u64) -> (id: Self)
        ensures
            id@ == command_prefix() + decimal_digits(sequence as nat),
    {
        let prefix = "cmd_";
        proof {
            reveal_strlit("cmd_");
            assert(prefix@ =~= command_prefix());
        }
        let mut value = prefix.to_owned();
        push_decimal(&mut value, sequence);
        proof {
            law_sequence_identifiers_are_valid(sequence);
        }
        CommandId(value)
    }

    pub fn as_str(&self) -> (text: &str)
        ensures
            text@ == self@,
            is_ascii(text),
    {
        proof {
            use_type_invariant(self);
            crate::text::lemma_graphic_is_ascii(self.0@);
        }
        self.0.as_str()
    }

    /// The identifier text as an owned string (its `Display` rendering).
    pub fn to_string(&self) -> (text: String)
        ensures
            text@ == self@,
    {
        self.0.clone()
    }

    /// Whether two identifiers hold the same text.
    pub fn same_as(&self, other: &Self) -> (same: bool)
        ensures
            same == (self@ == other@),
    {
        self.0 == other.0
    }
}

/// High-level lifecycle state of one call.
#[derive(Clone, Copy, Debug, PartialEq, Eq, Hash, Structural)]
pub enum CallState {
    Created,
    Inviting,
    Early,
    Ringing,
    Answered,
    Active,
    Transferring,
    Ending,
    Ended,
    Failed,
}

/// Kind of an observable call lifecycle event.
#[derive(Clone, Copy, Debug, PartialEq, Eq, Hash, Structural)]
pub enum CallEventKind {
    Created,
    InviteReceived,
    Ringing,
    EarlyMedia,
    Answered,
    MediaStarted,
    Transferring,
    Transferred,
    Hangup,
    Ended,
    Failed,
}

/// One ordered lifecycle event of a call.
#[derive(Debug, PartialEq, Eq)]
pub struct LifecycleEvent {
    pub event_id: EventId,
    pub call_id: CallId,
    pub kind: CallEventKind,
}

impl Clone for LifecycleEvent {
    fn clone(&self) -> (copy: Self)
        ensures
            copy == *self,
    {
        LifecycleEvent {
            event_id: self.event_id.clone(),
            call_id: self.call_id.clone(),
            kind: self.kind,
        }
    }
}

#[derive(Clone, Copy, Debug, PartialEq, Eq, Structural)]
pub enum TransitionError {
    InvalidTransition { from: CallState, to: CallState },
}

/// The call lifecycle graph: progress from creation through inviting,
/// optional early media and ringing, answer, active media and transfers, to a
/// single terminal `Ended`; ending or failure is reachable from every
/// pre-answer state.
pub open spec fn valid_transition(from: CallState, to: CallState) -> bool {
    match from {
        CallState::Created => to == CallState::Inviting || to == CallState::Ending || to
            == CallState::Failed,
        CallState::Inviting => to == CallState::Early || to == CallState::Ringing || to
            == CallState::Answered || to == CallState::Ending || to == CallState::Failed,
        CallState::Early => to == CallState::Ringing || to == CallState::Answered || to
            == CallState::Ending || to == CallState::Failed,
        CallState::Ringing => to == CallState::Answered || to == CallState::Ending || to
            == CallState::Failed,
        CallState::Answered => to == CallState::Active || to == CallState::Ending,
        CallState::Active => to == CallState::Transferring || to == CallState::Ending,
        CallState::Transferring => to == CallState::Active || to == CallState::Ending || to
            == CallState::Failed,
        CallState::Ending => to == CallState::Ended,
        CallState::Failed => to == CallState::Ended,
        CallState::Ended => false,
    }
}

pub(crate) fn is_valid_transition(from: CallState, to: CallState) -> (valid: bool)
    ensures
        valid == valid_transition(from, to),
{
    match from {
        CallState::Created => matches!(to, CallState::Inviting | CallState::Ending | CallState::Failed),
        CallState::Inviting => matches!(
            to,
            CallState::Early | CallState::Ringing | CallState::Answered | CallState::Ending
                | CallState::Failed
        ),
        CallState::Early => matches!(
            to,
            CallState::Ringing | CallState::Answered | CallState::Ending | CallState::Failed
        ),
        CallState::Ringing => matches!(
            to,
            CallState::Answered | CallState::Ending | CallState::Failed
        ),
        CallState::Answered => matches!(to, CallState::Active | CallState::Ending),
        CallState::Active => matches!(to, CallState::Transferring | CallState::Ending),
        CallState::Transferring => matches!(
            to,
            CallState::Active | CallState::Ending | CallState::Failed
        ),
        CallState::Ending => matches!(to, CallState::Ended),
        CallState::Failed => matches!(to, CallState::Ended),
        CallState::Ended => false,
    }
}

/// One call and its current lifecycle state.
#[derive(Debug, PartialEq, Eq)]
pub struct Call {
    pub id: CallId,
    pub state: CallState,
}

impl Clone for Call {
    fn clone(&self) -> (copy: Self)
        ensures
            copy == *self,
    {
        Call { id: self.id.clone(), state: self.state }
    }
}

impl Call {
    pub fn new(id: CallId) -> (call: Self)
        ensures
            call.id == id,
            call.state == CallState::Created,
    {
        Call { id, state: CallState::Created }
    }

    /// Moves to `next` when the lifecycle graph allows it; otherwise reports
    /// the rejected edge and leaves the call unchanged.
    pub fn transition(&mut self, next: CallState) -> (result: Result<(), TransitionError>)
        ensures
            result is Ok <==> valid_transition(old(self).state, next),
            result is Ok ==> final(self).state == next && final(self).id == old(self).id,
            result is Err ==> *final(self) == *old(self) && result == Err::<(), TransitionError>(
                TransitionError::InvalidTransition { from: old(self).state, to: next },
            ),
    {
        if is_valid_transition(self.state, next) {
            self.state = next;
            Ok(())
        } else {
            Err(TransitionError::InvalidTransition { from: self.state, to: next })
        }
    }
}

/// `Ended` is terminal: no transition leaves it.
pub proof fn law_ended_is_terminal(next: CallState)
    ensures
        !valid_transition(CallState::Ended, next),
{
}

/// Every state other than `Ended` reaches `Ended` in at most two transitions,
/// so no call can be stranded in a non-terminal state.
pub proof fn law_every_state_can_end(state: CallState)
    requires
        state != CallState::Ended,
    ensures
        valid_transition(state, CallState::Ended) || (valid_transition(state, CallState::Ending)
            && valid_transition(CallState::Ending, CallState::Ended)),
{
}

/// A generated identifier is always accepted by the validating constructor of
/// its type.
pub proof fn law_sequence_identifiers_are_valid(sequence: u64)
    ensures
        valid_identifier(call_prefix() + decimal_digits(sequence as nat), call_prefix()),
        valid_identifier(leg_prefix() + decimal_digits(sequence as nat), leg_prefix()),
        valid_identifier(stream_prefix() + decimal_digits(sequence as nat), stream_prefix()),
        valid_identifier(event_prefix() + decimal_digits(sequence as nat), event_prefix()),
        valid_identifier(bridge_prefix() + decimal_digits(sequence as nat), bridge_prefix()),
        valid_identifier(command_prefix() + decimal_digits(sequence as nat), command_prefix()),
{
    crate::text::lemma_u64_decimal_len(sequence);
    let digits = decimal_digits(sequence as nat);
    lemma_prefixed_valid(call_prefix(), digits);
    lemma_prefixed_valid(leg_prefix(), digits);
    lemma_prefixed_valid(stream_prefix(), digits);
    lemma_prefixed_valid(event_prefix(), digits);
    lemma_prefixed_valid(bridge_prefix(), digits);
    lemma_prefixed_valid(command_prefix(), digits);
}

proof fn lemma_prefixed_valid(prefix: Seq<char>, digits: Seq<char>)
    requires
        prefix.len() <= 8,
        all_graphic(prefix),
        1 <= digits.len() <= 20,
        all_graphic(digits),
    ensures
        valid_identifier(prefix + digits, prefix),
{
    let value = prefix + digits;
    assert(prefix.is_prefix_of(value)) by {
        assert(value.subrange(0, prefix.len() as int) =~= prefix);
    }
    assert forall|i: int| 0 <= i < value.len() implies crate::text::is_graphic_char(
        #[trigger] value[i],
    ) by {
        if i < prefix.len() {
            assert(value[i] == prefix[i]);
        } else {
            assert(value[i] == digits[i - prefix.len()]);
        }
    }
}

/// A transfer can always return to the state it was begun from, and can
/// also end or fail.
pub proof fn law_transfer_can_return(state: CallState)
    requires
        valid_transition(state, CallState::Transferring),
    ensures
        valid_transition(CallState::Transferring, state),
        valid_transition(CallState::Transferring, CallState::Ending),
        valid_transition(CallState::Transferring, CallState::Failed),
{
}

/// The call lifecycle: an invitation goes through optional early media and
/// ringing to an answer, media, and transfers that return to media; every
/// live call may end, calls not yet in media (or mid-transfer) may fail, and
/// ending or failing leads to `Ended`, which is final.
pub proof fn law_lifecycle_edges(from: CallState, to: CallState)
    ensures
        valid_transition(from, to) == (
        (from == CallState::Created && to == CallState::Inviting)
        || (from == CallState::Inviting && (to == CallState::Early || to == CallState::Ringing
            || to == CallState::Answered))
        || (from == CallState::Early && (to == CallState::Ringing || to == CallState::Answered))
        || (from == CallState::Ringing && to == CallState::Answered)
        || (from == CallState::Answered && to == CallState::Active)
        || (from == CallState::Active && to == CallState::Transferring)
        || (from == CallState::Transferring && to == CallState::Active)
        || (to == CallState::Ending && from != CallState::Ending && from != CallState::Ended
            && from != CallState::Failed)
        || (to == CallState::Failed && (from == CallState::Created || from == CallState::Inviting
            || from == CallState::Early || from == CallState::Ringing || from
            == CallState::Transferring))
        || (to == CallState::Ended && (from == CallState::Ending || from == CallState::Failed))),
{
}

} // verus!
