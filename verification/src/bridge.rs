//! Bounded provider-neutral call-leg bridge state.
//!
//! A bridge retains one inbound caller leg and its AI stream while a human
//! second leg is dialed. Human-leg failure deterministically resumes AI media,
//! so escalation does not require replacing the inbound call. This module owns
//! no sockets, media buffers, provider policy, or async runtime.

use std::collections::VecDeque;

use vstd::prelude::*;

use crate::call_core::{
    bridge_prefix, event_prefix, BridgeId, CallId, EventId, LegId, StreamId,
};
use crate::text::{decimal_digits, lemma_text_order, text_less, text_lt};

verus! {

pub const DEFAULT_MAX_BRIDGES: usize = 4096;

pub const DEFAULT_MAX_PENDING_EVENTS: usize = 16384;

/// Resource limits for a [`BridgeRegistry`].
#[derive(Clone, Copy, Debug, PartialEq, Eq, Structural)]
pub struct BridgeRegistryConfig {
    /// Maximum retained bridge records, including terminal records awaiting reclamation.
    pub max_bridges: usize,
    /// Maximum events retained until the control plane drains them.
    pub max_pending_events: usize,
}

impl Default for BridgeRegistryConfig {
    fn default() -> (config: Self)
        ensures
            config.max_bridges == DEFAULT_MAX_BRIDGES,
            config.max_pending_events == DEFAULT_MAX_PENDING_EVENTS,
    {
        BridgeRegistryConfig {
            max_bridges: DEFAULT_MAX_BRIDGES,
            max_pending_events: DEFAULT_MAX_PENDING_EVENTS,
        }
    }
}

impl BridgeRegistryConfig {
    fn validate(self) -> (result: Result<Self, BridgeError>)
        ensures
            result == (if self.max_bridges == 0 || self.max_pending_events == 0 {
                Err(BridgeError::InvalidConfig)
            } else {
                Ok(self)
            }),
    {
        if self.max_bridges == 0 || self.max_pending_events == 0 {
            return Err(BridgeError::InvalidConfig);
        }
        Ok(self)
    }
}

/// High-level routing state for one caller bridge.
#[derive(Clone, Copy, Debug, PartialEq, Eq, Structural)]
pub enum BridgeState {
    /// Caller media is connected to the retained AI stream.
    AiActive,
    /// AI remains active while an outbound human leg is being established.
    ConnectingHuman,
    /// Caller media is connected to the established human leg.
    HumanActive,
    /// Bridge forwarding stopped and the record may be reclaimed.
    Ended,
}

/// Human SIP/PSTN call and media-leg identity.
#[derive(Debug, PartialEq, Eq)]
pub struct HumanLeg {
    /// Outbound application call identity.
    pub call_id: CallId,
    /// Media/signaling leg identity owned by that call.
    pub leg_id: LegId,
}

impl Clone for HumanLeg {
    fn clone(&self) -> (copy: Self)
        ensures
            copy == *self,
    {
        HumanLeg { call_id: self.call_id.clone(), leg_id: self.leg_id.clone() }
    }
}

/// Stable read-only bridge state exposed to the control plane.
#[derive(Debug, PartialEq, Eq)]
pub struct BridgeSnapshot {
    /// Stable bridge identity.
    pub id: BridgeId,
    /// Original inbound call, retained across destination switches.
    pub caller_call_id: CallId,
    /// Original inbound media/signaling leg.
    pub caller_leg_id: LegId,
    /// AI media stream retained for deterministic fail-back.
    pub ai_stream_id: StreamId,
    /// Current routing state.
    pub state: BridgeState,
    /// Established human destination when it is active.
    pub active_human: Option<HumanLeg>,
    /// Outbound human destination while it is connecting.
    pub pending_human: Option<HumanLeg>,
}

fn clone_human(human: &Option<HumanLeg>) -> (copy: Option<HumanLeg>)
    ensures
        copy == *human,
{
    match human {
        Some(leg) => Some(leg.clone()),
        None => None,
    }
}

impl Clone for BridgeSnapshot {
    fn clone(&self) -> (copy: Self)
        ensures
            copy == *self,
    {
        BridgeSnapshot {
            id: self.id.clone(),
            caller_call_id: self.caller_call_id.clone(),
            caller_leg_id: self.caller_leg_id.clone(),
            ai_stream_id: self.ai_stream_id.clone(),
            state: self.state,
            active_human: clone_human(&self.active_human),
            pending_human: clone_human(&self.pending_human),
        }
    }
}

/// Operation used in stable invalid-state diagnostics.
#[derive(Clone, Copy, Debug, PartialEq, Eq, Structural)]
pub enum BridgeOperation {
    /// Start establishing a human second leg.
    BeginHuman,
    /// Activate the established human second leg.
    CompleteHuman,
    /// Report failure of a pending or active human leg.
    FailHuman,
    /// Switch an active human bridge back to AI.
    ResumeAi,
    /// Stop all forwarding and enter terminal state.
    End,
    /// Remove an ended bridge record and release its owned endpoints.
    Reclaim,
}

/// Observable bridge lifecycle event.
#[derive(Clone, Copy, Debug, PartialEq, Eq, Structural)]
pub enum BridgeEventKind {
    /// An AI-backed caller bridge was created.
    Created,
    /// A human second-leg attempt started while AI remained active.
    HumanConnecting,
    /// The human second leg became the active destination.
    HumanConnected,
    /// The human leg failed and routing fell back to AI.
    HumanFailed,
    /// The control plane explicitly restored AI routing.
    AiResumed,
    /// Bridge forwarding ended.
    Ended,
}

/// Ordered event emitted by one bridge transition.
#[derive(Debug, PartialEq, Eq)]
pub struct BridgeEvent {
    /// Stable event identity.
    pub event_id: EventId,
    /// Bridge that emitted the event.
    pub bridge_id: BridgeId,
    /// Lifecycle event kind.
    pub kind: BridgeEventKind,
}

impl Clone for BridgeEvent {
    fn clone(&self) -> (copy: Self)
        ensures
            copy == *self,
    {
        BridgeEvent {
            event_id: self.event_id.clone(),
            bridge_id: self.bridge_id.clone(),
            kind: self.kind,
        }
    }
}

/// Errors returned by bounded bridge operations.
#[derive(Clone, Copy, Debug, PartialEq, Eq, Structural)]
pub enum BridgeError {
    /// At least one configured bound was zero.
    InvalidConfig,
    /// The bridge registry reached its configured record limit.
    BridgeLimitReached,
    /// A call, leg, or AI stream is already owned by a retained bridge.
    EndpointInUse,
    /// The requested bridge does not exist.
    UnknownBridge,
    /// The event queue reached its configured limit.
    EventQueueFull,
    /// A list or drain limit was zero.
    InvalidLimit,
    /// The operation is invalid in the bridge's current state.
    InvalidOperation {
        /// Current bridge state.
        state: BridgeState,
        /// Rejected operation.
        operation: BridgeOperation,
    },
    /// A generated bridge or event sequence cannot advance safely.
    IdentifierExhausted,
}

/// The storage of a bridge registry, whose operations ask for well-formedness.
#[derive(Debug)]
pub(crate) struct BridgeCore {
    config: BridgeRegistryConfig,
    bridges: Vec<BridgeSnapshot>,
    events: VecDeque<BridgeEvent>,
    next_bridge_sequence: u64,
    next_event_sequence: u64,
}

/// The abstract registry: retained bridges in identifier order, undelivered
/// events in emission order, and the next generated sequences.
pub struct BridgeRegistryView {
    pub config: BridgeRegistryConfig,
    pub bridges: Seq<BridgeSnapshot>,
    pub events: Seq<BridgeEvent>,
    pub next_bridge_sequence: u64,
    pub next_event_sequence: u64,
}

impl View for BridgeCore {
    type V = BridgeRegistryView;

    closed spec fn view(&self) -> BridgeRegistryView {
        BridgeRegistryView {
            config: self.config,
            bridges: self.bridges@,
            events: self.events@,
            next_bridge_sequence: self.next_bridge_sequence,
            next_event_sequence: self.next_event_sequence,
        }
    }
}

/// The text of the generated identifier with a sequence number.
pub open spec fn bridge_text(sequence: u64) -> Seq<char> {
    bridge_prefix() + decimal_digits(sequence as nat)
}

pub open spec fn event_text(sequence: u64) -> Seq<char> {
    event_prefix() + decimal_digits(sequence as nat)
}

/// Whether a bridge uses a call identity as caller, active human or pending human.
pub open spec fn uses_call(bridge: BridgeSnapshot, call: Seq<char>) -> bool {
    ||| bridge.caller_call_id@ == call
    ||| (bridge.active_human matches Some(human) && human.call_id@ == call)
    ||| (bridge.pending_human matches Some(human) && human.call_id@ == call)
}

pub open spec fn uses_leg(bridge: BridgeSnapshot, leg: Seq<char>) -> bool {
    ||| bridge.caller_leg_id@ == leg
    ||| (bridge.active_human matches Some(human) && human.leg_id@ == leg)
    ||| (bridge.pending_human matches Some(human) && human.leg_id@ == leg)
}

pub open spec fn call_used(bridges: Seq<BridgeSnapshot>, call: Seq<char>) -> bool {
    exists|i: int| 0 <= i < bridges.len() && uses_call(#[trigger] bridges[i], call)
}

pub open spec fn leg_used(bridges: Seq<BridgeSnapshot>, leg: Seq<char>) -> bool {
    exists|i: int| 0 <= i < bridges.len() && uses_leg(#[trigger] bridges[i], leg)
}

pub open spec fn stream_used(bridges: Seq<BridgeSnapshot>, stream: Seq<char>) -> bool {
    exists|i: int| 0 <= i < bridges.len() && #[trigger] bridges[i].ai_stream_id@ == stream
}

pub open spec fn has_bridge(bridges: Seq<BridgeSnapshot>, id: Seq<char>) -> bool {
    exists|i: int| 0 <= i < bridges.len() && #[trigger] bridges[i].id@ == id
}

/// The position of a retained bridge.
pub open spec fn bridge_index(bridges: Seq<BridgeSnapshot>, id: Seq<char>) -> int {
    choose|i: int| 0 <= i < bridges.len() && #[trigger] bridges[i].id@ == id
}

/// Each routing state carries exactly the human legs it describes, and a
/// bridge's human leg never reuses its own caller identities.
pub open spec fn bridge_shape(bridge: BridgeSnapshot) -> bool {
    &&& match bridge.state {
        BridgeState::AiActive | BridgeState::Ended => bridge.active_human is None
            && bridge.pending_human is None,
        BridgeState::ConnectingHuman => bridge.active_human is None && bridge.pending_human is Some,
        BridgeState::HumanActive => bridge.active_human is Some && bridge.pending_human is None,
    }
    &&& (bridge.active_human matches Some(human) ==> human.call_id@ != bridge.caller_call_id@
        && human.leg_id@ != bridge.caller_leg_id@)
    &&& (bridge.pending_human matches Some(human) ==> human.call_id@ != bridge.caller_call_id@
        && human.leg_id@ != bridge.caller_leg_id@)
}

/// No call, leg or AI stream is owned by two retained bridges.
pub open spec fn endpoints_exclusive(bridges: Seq<BridgeSnapshot>) -> bool {
    &&& forall|i: int| 0 <= i < bridges.len() ==> bridge_shape(#[trigger] bridges[i])
    &&& forall|i: int, j: int, call: Seq<char>|
        0 <= i < bridges.len() && 0 <= j < bridges.len() && i != j && #[trigger] uses_call(
            bridges[i],
            call,
        ) ==> !#[trigger] uses_call(bridges[j], call)
    &&& forall|i: int, j: int, leg: Seq<char>|
        0 <= i < bridges.len() && 0 <= j < bridges.len() && i != j && #[trigger] uses_leg(
            bridges[i],
            leg,
        ) ==> !#[trigger] uses_leg(bridges[j], leg)
    &&& forall|i: int, j: int|
        0 <= i < bridges.len() && 0 <= j < bridges.len() && i != j ==> (#[trigger] bridges[i]).ai_stream_id@
            != (#[trigger] bridges[j]).ai_stream_id@
}

pub open spec fn sorted_bridges(bridges: Seq<BridgeSnapshot>) -> bool {
    forall|i: int, j: int|
        0 <= i < j < bridges.len() ==> text_lt(#[trigger] bridges[i].id@, #[trigger] bridges[j].id@)
}

/// Registry well-formedness: non-zero bounds respected, bridges sorted by
/// identifier, endpoints exclusive.
pub open spec fn registry_wf(view: BridgeRegistryView) -> bool {
    &&& view.config.max_bridges > 0
    &&& view.config.max_pending_events > 0
    &&& view.bridges.len() <= view.config.max_bridges
    &&& view.events.len() <= view.config.max_pending_events
    &&& sorted_bridges(view.bridges)
    &&& endpoints_exclusive(view.bridges)
}

/// `event` is the next event: it carries the next event sequence, the given
/// bridge and kind, and was appended to the pending events.
pub open spec fn emitted(
    before: BridgeRegistryView,
    after: BridgeRegistryView,
    event: BridgeEvent,
    bridge: Seq<char>,
    kind: BridgeEventKind,
) -> bool {
    &&& event.event_id@ == event_text(before.next_event_sequence)
    &&& event.bridge_id@ == bridge
    &&& event.kind == kind
    &&& after.events == before.events.push(event)
    &&& after.next_event_sequence == before.next_event_sequence + 1
    &&& after.next_bridge_sequence == before.next_bridge_sequence
    &&& after.config == before.config
}

/// The error a transition of a known bridge reports when the event queue or
/// event sequence cannot take another event.
pub open spec fn event_capacity_error(view: BridgeRegistryView) -> Option<BridgeError> {
    if view.events.len() >= view.config.max_pending_events {
        Some(BridgeError::EventQueueFull)
    } else if view.next_event_sequence == u64::MAX {
        Some(BridgeError::IdentifierExhausted)
    } else {
        None
    }
}

impl BridgeCore {
    /// Creates an empty bridge registry.
    pub fn new(config: BridgeRegistryConfig) -> (result: Result<Self, BridgeError>)
        ensures
            result is Err <==> config.max_bridges == 0 || config.max_pending_events == 0,
            result is Err ==> result == Err::<Self, BridgeError>(BridgeError::InvalidConfig),
            result matches Ok(registry) ==> {
                &&& registry@.config == config
                &&& registry@.bridges.len() == 0
                &&& registry@.events.len() == 0
                &&& registry@.next_bridge_sequence == 1
                &&& registry@.next_event_sequence == 1
                &&& registry_wf(registry@)
            },
    {
        let config = match config.validate() {
            Ok(config) => config,
            Err(error) => return Err(error),
        };
        Ok(
            BridgeCore {
                config,
                bridges: Vec::new(),
                events: VecDeque::new(),
                next_bridge_sequence: 1,
                next_event_sequence: 1,
            },
        )
    }

    /// An empty registry with bounds that are known to be valid.
    fn vacant(config: BridgeRegistryConfig) -> (registry: Self)
        requires
            config.max_bridges > 0,
            config.max_pending_events > 0,
        ensures
            registry_wf(registry@),
    {
        BridgeCore {
            config,
            bridges: Vec::new(),
            events: VecDeque::new(),
            next_bridge_sequence: 1,
            next_event_sequence: 1,
        }
    }

    fn position(&self, id: &BridgeId) -> (index: Option<usize>)
        requires
            sorted_bridges(self@.bridges),
        ensures
            index is Some <==> has_bridge(self@.bridges, id@),
            index matches Some(i) ==> i == bridge_index(self@.bridges, id@) && i
                < self@.bridges.len() && self@.bridges[i as int].id@ == id@,
    {
        let mut i: usize = 0;
        while i < self.bridges.len()
            invariant
                sorted_bridges(self@.bridges),
                i <= self.bridges.len(),
                forall|j: int| 0 <= j < i ==> #[trigger] self@.bridges[j].id@ != id@,
            decreases self.bridges.len() - i,
        {
            if self.bridges[i].id.same_as(id) {
                proof {
                    lemma_unique_index(self@.bridges, id@, i as int);
                }
                return Some(i);
            }
            i = i + 1;
        }
        None
    }

    fn call_in_use(&self, id: &CallId) -> (used: bool)
        ensures
            used == call_used(self@.bridges, id@),
    {
        let mut i: usize = 0;
        while i < self.bridges.len()
            invariant
                i <= self.bridges.len(),
                forall|j: int| 0 <= j < i ==> !uses_call(#[trigger] self@.bridges[j], id@),
            decreases self.bridges.len() - i,
        {
            let entry = &self.bridges[i];
            let mut used = entry.caller_call_id.same_as(id);
            match &entry.active_human {
                Some(human) => {
                    used = used || human.call_id.same_as(id);
                },
                None => {},
            }
            match &entry.pending_human {
                Some(human) => {
                    used = used || human.call_id.same_as(id);
                },
                None => {},
            }
            if used {
                assert(uses_call(self@.bridges[i as int], id@));
                return true;
            }
            i = i + 1;
        }
        false
    }

    fn leg_in_use(&self, id: &LegId) -> (used: bool)
        ensures
            used == leg_used(self@.bridges, id@),
    {
        let mut i: usize = 0;
        while i < self.bridges.len()
            invariant
                i <= self.bridges.len(),
                forall|j: int| 0 <= j < i ==> !uses_leg(#[trigger] self@.bridges[j], id@),
            decreases self.bridges.len() - i,
        {
            let entry = &self.bridges[i];
            let mut used = entry.caller_leg_id.same_as(id);
            match &entry.active_human {
                Some(human) => {
                    used = used || human.leg_id.same_as(id);
                },
                None => {},
            }
            match &entry.pending_human {
                Some(human) => {
                    used = used || human.leg_id.same_as(id);
                },
                None => {},
            }
            if used {
                assert(uses_leg(self@.bridges[i as int], id@));
                return true;
            }
            i = i + 1;
        }
        false
    }

    fn stream_in_use(&self, id: &StreamId) -> (used: bool)
        ensures
            used == stream_used(self@.bridges, id@),
    {
        let mut i: usize = 0;
        while i < self.bridges.len()
            invariant
                i <= self.bridges.len(),
                forall|j: int| 0 <= j < i ==> #[trigger] self@.bridges[j].ai_stream_id@ != id@,
            decreases self.bridges.len() - i,
        {
            if self.bridges[i].ai_stream_id.same_as(id) {
                assert(self@.bridges[i as int].ai_stream_id@ == id@);
                return true;
            }
            i = i + 1;
        }
        false
    }

    fn reserve_event_id(&self) -> (result: Result<EventId, BridgeError>)
        ensures
            match event_capacity_error(self@) {
                Some(error) => result == Err::<EventId, BridgeError>(error),
                None => result matches Ok(id) && id@ == event_text(self@.next_event_sequence),
            },
    {
        if self.events.len() >= self.config.max_pending_events {
            return Err(BridgeError::EventQueueFull);
        }
        if self.next_event_sequence == u64::MAX {
            return Err(BridgeError::IdentifierExhausted);
        }
        Ok(EventId::from_sequence(self.next_event_sequence))
    }

    fn commit_event(&mut self, event_id: EventId, bridge_id: BridgeId, kind: BridgeEventKind) -> (event:
        BridgeEvent)
        requires
            old(self)@.next_event_sequence < u64::MAX,
        ensures
            event.event_id == event_id,
            event.bridge_id == bridge_id,
            event.kind == kind,
            final(self)@.events == old(self)@.events.push(event),
            final(self)@.next_event_sequence == old(self)@.next_event_sequence + 1,
            final(self)@.bridges == old(self)@.bridges,
            final(self)@.config == old(self)@.config,
            final(self)@.next_bridge_sequence == old(self)@.next_bridge_sequence,
    {
        self.next_event_sequence = self.next_event_sequence + 1;
        let event = BridgeEvent { event_id, bridge_id, kind };
        self.events.push_back(event.clone());
        event
    }

    /// Allocates the first generated bridge identifier at or after the next
    /// sequence that no retained bridge uses.
    fn allocate_bridge_id(&mut self) -> (result: Result<BridgeId, BridgeError>)
        requires
            sorted_bridges(old(self)@.bridges),
        ensures
            final(self)@.bridges == old(self)@.bridges,
            final(self)@.events == old(self)@.events,
            final(self)@.config == old(self)@.config,
            final(self)@.next_event_sequence == old(self)@.next_event_sequence,
            old(self)@.next_bridge_sequence <= final(self)@.next_bridge_sequence,
            match result {
                Ok(id) => {
                    &&& old(self)@.next_bridge_sequence < final(self)@.next_bridge_sequence
                    &&& id@ == bridge_text((final(self)@.next_bridge_sequence - 1) as u64)
                    &&& !has_bridge(old(self)@.bridges, id@)
                    &&& forall|s: u64|
                        old(self)@.next_bridge_sequence <= s < final(self)@.next_bridge_sequence - 1
                            ==> has_bridge(old(self)@.bridges, #[trigger] bridge_text(s))
                },
                Err(error) => {
                    &&& error == BridgeError::IdentifierExhausted
                    &&& final(self)@.next_bridge_sequence == u64::MAX
                    &&& forall|s: u64|
                        old(self)@.next_bridge_sequence <= s < u64::MAX ==> has_bridge(
                            old(self)@.bridges,
                            #[trigger] bridge_text(s),
                        )
                },
            },
    {
        loop
            invariant
                sorted_bridges(self@.bridges),
                self@.bridges == old(self)@.bridges,
                self@.events == old(self)@.events,
                self@.config == old(self)@.config,
                self@.next_event_sequence == old(self)@.next_event_sequence,
                old(self)@.next_bridge_sequence <= self@.next_bridge_sequence,
                forall|s: u64|
                    old(self)@.next_bridge_sequence <= s < self@.next_bridge_sequence ==> has_bridge(
                        old(self)@.bridges,
                        #[trigger] bridge_text(s),
                    ),
            decreases u64::MAX - self.next_bridge_sequence,
        {
            let sequence = self.next_bridge_sequence;
            if sequence == u64::MAX {
                return Err(BridgeError::IdentifierExhausted);
            }
            self.next_bridge_sequence = sequence + 1;
            let id = BridgeId::from_sequence(sequence);
            let found = self.position(&id);
            if found.is_none() {
                return Ok(id);
            }
        }
    }
}

impl BridgeCore {
    fn insert_sorted(&mut self, snapshot: BridgeSnapshot)
        requires
            sorted_bridges(old(self)@.bridges),
            !has_bridge(old(self)@.bridges, snapshot.id@),
        ensures
            sorted_bridges(final(self)@.bridges),
            final(self)@.bridges == old(self)@.bridges.insert(
                insertion_point(old(self)@.bridges, snapshot.id@),
                snapshot,
            ),
            is_insertion_point(old(self)@.bridges, snapshot.id@, insertion_point(old(self)@.bridges, snapshot.id@)),
            final(self)@.events == old(self)@.events,
            final(self)@.config == old(self)@.config,
            final(self)@.next_bridge_sequence == old(self)@.next_bridge_sequence,
            final(self)@.next_event_sequence == old(self)@.next_event_sequence,
    {
        let ghost before = self@.bridges;
        let mut index: usize = 0;
        let new_text = snapshot.id.as_str();
        while index < self.bridges.len()
            invariant
                sorted_bridges(self@.bridges),
                !has_bridge(self@.bridges, snapshot.id@),
                new_text@ == snapshot.id@,
                vstd::string::is_ascii(new_text),
                index <= self.bridges.len(),
                forall|j: int| 0 <= j < index ==> text_lt(#[trigger] self@.bridges[j].id@, snapshot.id@),
            ensures
                index <= self.bridges.len(),
                forall|j: int| 0 <= j < index ==> text_lt(#[trigger] self@.bridges[j].id@, snapshot.id@),
                index < self.bridges.len() ==> text_lt(snapshot.id@, self@.bridges[index as int].id@),
            decreases self.bridges.len() - index,
        {
            if text_less(new_text, self.bridges[index].id.as_str()) {
                break;
            }
            proof {
                let other = self@.bridges[index as int].id@;
                assert(other != snapshot.id@);
                lemma_text_order(other, snapshot.id@, other);
            }
            index = index + 1;
        }
        proof {
            assert forall|j: int| index <= j < before.len() implies text_lt(
                snapshot.id@,
                #[trigger] before[j].id@,
            ) by {
                if j > index {
                    lemma_text_order(snapshot.id@, before[index as int].id@, before[j].id@);
                }
            }
            lemma_insertion_point_unique(before, snapshot.id@, index as int);
            lemma_insert_sorted(before, snapshot, index as int);
        }
        self.bridges.insert(index, snapshot);
    }

    /// Creates an AI-backed bridge for one stable inbound caller leg.
    pub fn create_ai(
        &mut self,
        caller_call_id: CallId,
        caller_leg_id: LegId,
        ai_stream_id: StreamId,
    ) -> (result: Result<(BridgeId, BridgeEvent), BridgeError>)
        requires
            registry_wf(old(self)@),
        ensures
            registry_wf(final(self)@),
            ({
                let before = old(self)@;
                let after = final(self)@;
                if before.bridges.len() >= before.config.max_bridges {
                    result == Err::<(BridgeId, BridgeEvent), BridgeError>(
                        BridgeError::BridgeLimitReached,
                    ) && after == before
                } else if call_used(before.bridges, caller_call_id@) || leg_used(
                    before.bridges,
                    caller_leg_id@,
                ) || stream_used(before.bridges, ai_stream_id@) {
                    result == Err::<(BridgeId, BridgeEvent), BridgeError>(
                        BridgeError::EndpointInUse,
                    ) && after == before
                } else {
                    match event_capacity_error(before) {
                        Some(error) => result == Err::<(BridgeId, BridgeEvent), BridgeError>(error)
                            && after == before,
                        None => match result {
                            Ok((id, event)) => {
                                &&& before.next_bridge_sequence < after.next_bridge_sequence
                                &&& id@ == bridge_text((after.next_bridge_sequence - 1) as u64)
                                &&& !has_bridge(before.bridges, id@)
                                &&& is_insertion_point(
                                    before.bridges,
                                    id@,
                                    insertion_point(before.bridges, id@),
                                )
                                &&& forall|s: u64|
                                    before.next_bridge_sequence <= s < after.next_bridge_sequence - 1
                                        ==> has_bridge(before.bridges, #[trigger] bridge_text(s))
                                &&& after.bridges == before.bridges.insert(
                                    insertion_point(before.bridges, id@),
                                    BridgeSnapshot {
                                        id,
                                        caller_call_id,
                                        caller_leg_id,
                                        ai_stream_id,
                                        state: BridgeState::AiActive,
                                        active_human: None,
                                        pending_human: None,
                                    },
                                )
                                &&& event.event_id@ == event_text(before.next_event_sequence)
                                &&& event.bridge_id == id
                                &&& event.kind == BridgeEventKind::Created
                                &&& after.events == before.events.push(event)
                                &&& after.next_event_sequence == before.next_event_sequence + 1
                                &&& after.config == before.config
                            },
                            Err(error) => {
                                &&& error == BridgeError::IdentifierExhausted
                                &&& after.bridges == before.bridges
                                &&& after.events == before.events
                                &&& after.config == before.config
                                &&& after.next_event_sequence == before.next_event_sequence
                                &&& after.next_bridge_sequence == u64::MAX
                                &&& forall|s: u64|
                                    before.next_bridge_sequence <= s < u64::MAX ==> has_bridge(
                                        before.bridges,
                                        #[trigger] bridge_text(s),
                                    )
                            },
                        },
                    }
                }
            }),
    {
        if self.bridges.len() >= self.config.max_bridges {
            return Err(BridgeError::BridgeLimitReached);
        }
        if self.call_in_use(&caller_call_id) || self.leg_in_use(&caller_leg_id)
            || self.stream_in_use(&ai_stream_id) {
            return Err(BridgeError::EndpointInUse);
        }
        let event_id = match self.reserve_event_id() {
            Ok(event_id) => event_id,
            Err(error) => return Err(error),
        };
        let ghost before = self@;
        let bridge_id = match self.allocate_bridge_id() {
            Ok(bridge_id) => bridge_id,
            Err(error) => return Err(error),
        };
        let snapshot = BridgeSnapshot {
            id: bridge_id.clone(),
            caller_call_id,
            caller_leg_id,
            ai_stream_id,
            state: BridgeState::AiActive,
            active_human: None,
            pending_human: None,
        };
        let ghost pre = self@;
        let ghost inserted = snapshot;
        self.insert_sorted(snapshot);
        proof {
            lemma_insert_exclusive(pre.bridges, insertion_point(pre.bridges, bridge_id@), inserted);
        }
        let event = self.commit_event(event_id, bridge_id.clone(), BridgeEventKind::Created);
        Ok((bridge_id, event))
    }

    fn state(&self, id: &BridgeId) -> (result: Result<(usize, BridgeState), BridgeError>)
        requires
            sorted_bridges(self@.bridges),
        ensures
            match result {
                Ok((index, state)) => has_bridge(self@.bridges, id@) && index == bridge_index(
                    self@.bridges,
                    id@,
                ) && index < self@.bridges.len() && state == self@.bridges[index as int].state
                    && self@.bridges[index as int].id@ == id@,
                Err(error) => !has_bridge(self@.bridges, id@) && error == BridgeError::UnknownBridge,
            },
    {
        match self.position(id) {
            Some(index) => Ok((index, self.bridges[index].state)),
            None => Err(BridgeError::UnknownBridge),
        }
    }

    /// Replaces the routing state and human legs of the bridge at `index` and
    /// emits one event.
    fn apply_transition(
        &mut self,
        index: usize,
        event_id: EventId,
        state: BridgeState,
        active_human: Option<HumanLeg>,
        pending_human: Option<HumanLeg>,
        kind: BridgeEventKind,
    ) -> (event: BridgeEvent)
        requires
            index < old(self)@.bridges.len(),
            old(self)@.next_event_sequence < u64::MAX,
        ensures
            final(self)@.bridges == old(self)@.bridges.update(
                index as int,
                BridgeSnapshot { state, active_human, pending_human, ..old(self)@.bridges[index as int] },
            ),
            event.event_id == event_id,
            event.bridge_id == old(self)@.bridges[index as int].id,
            event.kind == kind,
            final(self)@.events == old(self)@.events.push(event),
            final(self)@.next_event_sequence == old(self)@.next_event_sequence + 1,
            final(self)@.next_bridge_sequence == old(self)@.next_bridge_sequence,
            final(self)@.config == old(self)@.config,
    {
        let current = &self.bridges[index];
        let updated = BridgeSnapshot {
            id: current.id.clone(),
            caller_call_id: current.caller_call_id.clone(),
            caller_leg_id: current.caller_leg_id.clone(),
            ai_stream_id: current.ai_stream_id.clone(),
            state,
            active_human,
            pending_human,
        };
        let bridge_id = current.id.clone();
        self.bridges.set(index, updated);
        self.commit_event(event_id, bridge_id, kind)
    }

    /// Starts a human second leg while preserving AI routing until completion.
    pub fn begin_human(&mut self, id: &BridgeId, call_id: CallId, leg_id: LegId) -> (result: Result<
        BridgeEvent,
        BridgeError,
    >)
        requires
            registry_wf(old(self)@),
        ensures
            registry_wf(final(self)@),
            ({
                let before = old(self)@;
                let after = final(self)@;
                if !has_bridge(before.bridges, id@) {
                    result == Err::<BridgeEvent, BridgeError>(BridgeError::UnknownBridge) && after
                        == before
                } else {
                    let index = bridge_index(before.bridges, id@);
                    let bridge = before.bridges[index];
                    if bridge.state != BridgeState::AiActive {
                        result == Err::<BridgeEvent, BridgeError>(
                            BridgeError::InvalidOperation {
                                state: bridge.state,
                                operation: BridgeOperation::BeginHuman,
                            },
                        ) && after == before
                    } else if call_used(before.bridges, call_id@) || leg_used(before.bridges, leg_id@) {
                        result == Err::<BridgeEvent, BridgeError>(BridgeError::EndpointInUse) && after
                            == before
                    } else {
                        match event_capacity_error(before) {
                            Some(error) => result == Err::<BridgeEvent, BridgeError>(error) && after
                                == before,
                            None => result matches Ok(event) && after.bridges == before.bridges.update(
                                index,
                                BridgeSnapshot {
                                    state: BridgeState::ConnectingHuman,
                                    pending_human: Some(HumanLeg { call_id, leg_id }),
                                    ..bridge
                                },
                            ) && emitted(before, after, event, id@, BridgeEventKind::HumanConnecting),
                        }
                    }
                }
            }),
    {
        let (index, state) = match self.state(id) {
            Ok(found) => found,
            Err(error) => return Err(error),
        };
        if state != BridgeState::AiActive {
            return Err(
                BridgeError::InvalidOperation { state, operation: BridgeOperation::BeginHuman },
            );
        }
        if self.call_in_use(&call_id) || self.leg_in_use(&leg_id) {
            return Err(BridgeError::EndpointInUse);
        }
        let event_id = match self.reserve_event_id() {
            Ok(event_id) => event_id,
            Err(error) => return Err(error),
        };
        let ghost before = self@;
        let human = HumanLeg { call_id, leg_id };
        proof {
            let bridge = before.bridges[index as int];
            let updated = BridgeSnapshot {
                state: BridgeState::ConnectingHuman,
                pending_human: Some(human),
                ..bridge
            };
            assert(!uses_call(bridge, human.call_id@));
            assert(!uses_leg(bridge, human.leg_id@));
            lemma_update_exclusive(before.bridges, index as int, updated);
            lemma_update_sorted(before.bridges, index as int, updated);
        }
        Ok(
            self.apply_transition(
                index,
                event_id,
                BridgeState::ConnectingHuman,
                None,
                Some(human),
                BridgeEventKind::HumanConnecting,
            ),
        )
    }

    /// Activates the pending human leg and switches caller media away from AI.
    pub fn complete_human(&mut self, id: &BridgeId) -> (result: Result<BridgeEvent, BridgeError>)
        requires
            registry_wf(old(self)@),
        ensures
            registry_wf(final(self)@),
            ({
                let before = old(self)@;
                let after = final(self)@;
                if !has_bridge(before.bridges, id@) {
                    result == Err::<BridgeEvent, BridgeError>(BridgeError::UnknownBridge) && after
                        == before
                } else {
                    let index = bridge_index(before.bridges, id@);
                    let bridge = before.bridges[index];
                    if bridge.state != BridgeState::ConnectingHuman {
                        result == Err::<BridgeEvent, BridgeError>(
                            BridgeError::InvalidOperation {
                                state: bridge.state,
                                operation: BridgeOperation::CompleteHuman,
                            },
                        ) && after == before
                    } else {
                        match event_capacity_error(before) {
                            Some(error) => result == Err::<BridgeEvent, BridgeError>(error) && after
                                == before,
                            None => result matches Ok(event) && after.bridges == before.bridges.update(
                                index,
                                BridgeSnapshot {
                                    state: BridgeState::HumanActive,
                                    active_human: bridge.pending_human,
                                    pending_human: None,
                                    ..bridge
                                },
                            ) && emitted(before, after, event, id@, BridgeEventKind::HumanConnected),
                        }
                    }
                }
            }),
    {
        let (index, state) = match self.state(id) {
            Ok(found) => found,
            Err(error) => return Err(error),
        };
        if state != BridgeState::ConnectingHuman {
            return Err(
                BridgeError::InvalidOperation { state, operation: BridgeOperation::CompleteHuman },
            );
        }
        let event_id = match self.reserve_event_id() {
            Ok(event_id) => event_id,
            Err(error) => return Err(error),
        };
        let ghost before = self@;
        let pending = clone_human(&self.bridges[index].pending_human);
        proof {
            let bridge = before.bridges[index as int];
            let updated = BridgeSnapshot {
                state: BridgeState::HumanActive,
                active_human: bridge.pending_human,
                pending_human: None,
                ..bridge
            };
            lemma_update_exclusive(before.bridges, index as int, updated);
            lemma_update_sorted(before.bridges, index as int, updated);
        }
        Ok(
            self.apply_transition(
                index,
                event_id,
                BridgeState::HumanActive,
                pending,
                None,
                BridgeEventKind::HumanConnected,
            ),
        )
    }

    /// Fails a pending or active human leg and deterministically restores AI.
    pub fn fail_human(&mut self, id: &BridgeId) -> (result: Result<BridgeEvent, BridgeError>)
        requires
            registry_wf(old(self)@),
        ensures
            registry_wf(final(self)@),
            ({
                let before = old(self)@;
                let after = final(self)@;
                if !has_bridge(before.bridges, id@) {
                    result == Err::<BridgeEvent, BridgeError>(BridgeError::UnknownBridge) && after
                        == before
                } else {
                    let index = bridge_index(before.bridges, id@);
                    let bridge = before.bridges[index];
                    if bridge.state != BridgeState::ConnectingHuman && bridge.state
                        != BridgeState::HumanActive {
                        result == Err::<BridgeEvent, BridgeError>(
                            BridgeError::InvalidOperation {
                                state: bridge.state,
                                operation: BridgeOperation::FailHuman,
                            },
                        ) && after == before
                    } else {
                        match event_capacity_error(before) {
                            Some(error) => result == Err::<BridgeEvent, BridgeError>(error) && after
                                == before,
                            None => result matches Ok(event) && after.bridges == before.bridges.update(
                                index,
                                BridgeSnapshot {
                                    state: BridgeState::AiActive,
                                    active_human: None,
                                    pending_human: None,
                                    ..bridge
                                },
                            ) && emitted(before, after, event, id@, BridgeEventKind::HumanFailed),
                        }
                    }
                }
            }),
    {
        let (index, state) = match self.state(id) {
            Ok(found) => found,
            Err(error) => return Err(error),
        };
        if state != BridgeState::ConnectingHuman && state != BridgeState::HumanActive {
            return Err(
                BridgeError::InvalidOperation { state, operation: BridgeOperation::FailHuman },
            );
        }
        let event_id = match self.reserve_event_id() {
            Ok(event_id) => event_id,
            Err(error) => return Err(error),
        };
        proof {
            let bridge = self@.bridges[index as int];
            let updated = BridgeSnapshot {
                state: BridgeState::AiActive,
                active_human: None,
                pending_human: None,
                ..bridge
            };
            lemma_update_exclusive(self@.bridges, index as int, updated);
            lemma_update_sorted(self@.bridges, index as int, updated);
        }
        Ok(
            self.apply_transition(
                index,
                event_id,
                BridgeState::AiActive,
                None,
                None,
                BridgeEventKind::HumanFailed,
            ),
        )
    }

    /// Explicitly switches an active human bridge back to the retained AI stream.
    pub fn resume_ai(&mut self, id: &BridgeId) -> (result: Result<BridgeEvent, BridgeError>)
        requires
            registry_wf(old(self)@),
        ensures
            registry_wf(final(self)@),
            ({
                let before = old(self)@;
                let after = final(self)@;
                if !has_bridge(before.bridges, id@) {
                    result == Err::<BridgeEvent, BridgeError>(BridgeError::UnknownBridge) && after
                        == before
                } else {
                    let index = bridge_index(before.bridges, id@);
                    let bridge = before.bridges[index];
                    if bridge.state != BridgeState::HumanActive {
                        result == Err::<BridgeEvent, BridgeError>(
                            BridgeError::InvalidOperation {
                                state: bridge.state,
                                operation: BridgeOperation::ResumeAi,
                            },
                        ) && after == before
                    } else {
                        match event_capacity_error(before) {
                            Some(error) => result == Err::<BridgeEvent, BridgeError>(error) && after
                                == before,
                            None => result matches Ok(event) && after.bridges == before.bridges.update(
                                index,
                                BridgeSnapshot {
                                    state: BridgeState::AiActive,
                                    active_human: None,
                                    ..bridge
                                },
                            ) && emitted(before, after, event, id@, BridgeEventKind::AiResumed),
                        }
                    }
                }
            }),
    {
        let (index, state) = match self.state(id) {
            Ok(found) => found,
            Err(error) => return Err(error),
        };
        if state != BridgeState::HumanActive {
            return Err(
                BridgeError::InvalidOperation { state, operation: BridgeOperation::ResumeAi },
            );
        }
        let event_id = match self.reserve_event_id() {
            Ok(event_id) => event_id,
            Err(error) => return Err(error),
        };
        let pending = clone_human(&self.bridges[index].pending_human);
        proof {
            let bridge = self@.bridges[index as int];
            let updated = BridgeSnapshot {
                state: BridgeState::AiActive,
                active_human: None,
                ..bridge
            };
            lemma_update_exclusive(self@.bridges, index as int, updated);
            lemma_update_sorted(self@.bridges, index as int, updated);
        }
        Ok(
            self.apply_transition(
                index,
                event_id,
                BridgeState::AiActive,
                None,
                pending,
                BridgeEventKind::AiResumed,
            ),
        )
    }

    /// Ends forwarding and releases human endpoints from the retained snapshot.
    pub fn end(&mut self, id: &BridgeId) -> (result: Result<BridgeEvent, BridgeError>)
        requires
            registry_wf(old(self)@),
        ensures
            registry_wf(final(self)@),
            ({
                let before = old(self)@;
                let after = final(self)@;
                if !has_bridge(before.bridges, id@) {
                    result == Err::<BridgeEvent, BridgeError>(BridgeError::UnknownBridge) && after
                        == before
                } else {
                    let index = bridge_index(before.bridges, id@);
                    let bridge = before.bridges[index];
                    if bridge.state == BridgeState::Ended {
                        result == Err::<BridgeEvent, BridgeError>(
                            BridgeError::InvalidOperation {
                                state: bridge.state,
                                operation: BridgeOperation::End,
                            },
                        ) && after == before
                    } else {
                        match event_capacity_error(before) {
                            Some(error) => result == Err::<BridgeEvent, BridgeError>(error) && after
                                == before,
                            None => result matches Ok(event) && after.bridges == before.bridges.update(
                                index,
                                BridgeSnapshot {
                                    state: BridgeState::Ended,
                                    active_human: None,
                                    pending_human: None,
                                    ..bridge
                                },
                            ) && emitted(before, after, event, id@, BridgeEventKind::Ended),
                        }
                    }
                }
            }),
    {
        let (index, state) = match self.state(id) {
            Ok(found) => found,
            Err(error) => return Err(error),
        };
        if state == BridgeState::Ended {
            return Err(BridgeError::InvalidOperation { state, operation: BridgeOperation::End });
        }
        let event_id = match self.reserve_event_id() {
            Ok(event_id) => event_id,
            Err(error) => return Err(error),
        };
        proof {
            let bridge = self@.bridges[index as int];
            let updated = BridgeSnapshot {
                state: BridgeState::Ended,
                active_human: None,
                pending_human: None,
                ..bridge
            };
            lemma_update_exclusive(self@.bridges, index as int, updated);
            lemma_update_sorted(self@.bridges, index as int, updated);
        }
        Ok(
            self.apply_transition(
                index,
                event_id,
                BridgeState::Ended,
                None,
                None,
                BridgeEventKind::Ended,
            ),
        )
    }

    /// Removes an ended bridge so its caller, leg, stream, and record slot can be reused.
    pub fn remove_terminal(&mut self, id: &BridgeId) -> (result: Result<BridgeSnapshot, BridgeError>)
        requires
            registry_wf(old(self)@),
        ensures
            registry_wf(final(self)@),
            ({
                let before = old(self)@;
                let after = final(self)@;
                if !has_bridge(before.bridges, id@) {
                    result == Err::<BridgeSnapshot, BridgeError>(BridgeError::UnknownBridge) && after
                        == before
                } else {
                    let index = bridge_index(before.bridges, id@);
                    let bridge = before.bridges[index];
                    if bridge.state != BridgeState::Ended {
                        result == Err::<BridgeSnapshot, BridgeError>(
                            BridgeError::InvalidOperation {
                                state: bridge.state,
                                operation: BridgeOperation::Reclaim,
                            },
                        ) && after == before
                    } else {
                        result == Ok::<BridgeSnapshot, BridgeError>(bridge) && after.bridges
                            == before.bridges.remove(index) && after.events == before.events
                            && after.config == before.config && after.next_bridge_sequence
                            == before.next_bridge_sequence && after.next_event_sequence
                            == before.next_event_sequence
                    }
                }
            }),
    {
        let (index, state) = match self.state(id) {
            Ok(found) => found,
            Err(error) => return Err(error),
        };
        if state != BridgeState::Ended {
            return Err(BridgeError::InvalidOperation { state, operation: BridgeOperation::Reclaim });
        }
        proof {
            lemma_remove_keeps_wf(self@.bridges, index as int);
        }
        let removed = self.bridges.remove(index);
        Ok(removed)
    }

    /// Returns one stable bridge snapshot.
    pub fn snapshot(&self, id: &BridgeId) -> (result: Result<BridgeSnapshot, BridgeError>)
        requires
            registry_wf(self@),
        ensures
            has_bridge(self@.bridges, id@) ==> result == Ok::<BridgeSnapshot, BridgeError>(
                self@.bridges[bridge_index(self@.bridges, id@)],
            ),
            !has_bridge(self@.bridges, id@) ==> result == Err::<BridgeSnapshot, BridgeError>(
                BridgeError::UnknownBridge,
            ),
    {
        match self.position(id) {
            Some(index) => Ok(self.bridges[index].clone()),
            None => Err(BridgeError::UnknownBridge),
        }
    }

    /// Lists retained bridges in deterministic identifier order.
    pub fn list(&self, limit: usize) -> (result: Result<Vec<BridgeSnapshot>, BridgeError>)
        ensures
            limit == 0 ==> result == Err::<Vec<BridgeSnapshot>, BridgeError>(
                BridgeError::InvalidLimit,
            ),
            limit > 0 ==> (result matches Ok(snapshots) && snapshots@ == self@.bridges.take(
                if limit < self@.bridges.len() {
                    limit as int
                } else {
                    self@.bridges.len() as int
                },
            )),
    {
        if limit == 0 {
            return Err(BridgeError::InvalidLimit);
        }
        let count = if limit < self.bridges.len() {
            limit
        } else {
            self.bridges.len()
        };
        let mut snapshots: Vec<BridgeSnapshot> = Vec::new();
        let mut i: usize = 0;
        while i < count
            invariant
                count <= self.bridges.len(),
                i <= count,
                snapshots@ == self@.bridges.take(i as int),
            decreases count - i,
        {
            snapshots.push(self.bridges[i].clone());
            proof {
                assert(self@.bridges.take(i + 1) == self@.bridges.take(i as int).push(
                    self@.bridges[i as int],
                ));
            }
            i = i + 1;
        }
        Ok(snapshots)
    }

    /// Returns the configured registry bounds.
    pub fn config(&self) -> (config: BridgeRegistryConfig)
        ensures
            config == self@.config,
    {
        self.config
    }

    /// Returns the number of undelivered bridge events.
    pub fn pending_events(&self) -> (count: usize)
        ensures
            count == self@.events.len(),
    {
        self.events.len()
    }

    /// Drains bridge events in emission order.
    pub fn drain_events(&mut self, limit: usize) -> (result: Result<Vec<BridgeEvent>, BridgeError>)
        requires
            registry_wf(old(self)@),
        ensures
            registry_wf(final(self)@),
            limit == 0 ==> result == Err::<Vec<BridgeEvent>, BridgeError>(BridgeError::InvalidLimit)
                && final(self)@ == old(self)@,
            limit > 0 ==> {
                let count = if limit < old(self)@.events.len() {
                    limit as int
                } else {
                    old(self)@.events.len() as int
                };
                &&& result matches Ok(events) && events@ == old(self)@.events.take(count)
                &&& final(self)@.events == old(self)@.events.skip(count)
                &&& final(self)@.bridges == old(self)@.bridges
                &&& final(self)@.config == old(self)@.config
                &&& final(self)@.next_bridge_sequence == old(self)@.next_bridge_sequence
                &&& final(self)@.next_event_sequence == old(self)@.next_event_sequence
            },
    {
        if limit == 0 {
            return Err(BridgeError::InvalidLimit);
        }
        let ghost before = self@.events;
        let count = if limit < self.events.len() {
            limit
        } else {
            self.events.len()
        };
        let mut drained: Vec<BridgeEvent> = Vec::new();
        let mut i: usize = 0;
        while i < count
            invariant
                count <= before.len(),
                i <= count,
                drained@ == before.take(i as int),
                self@.events == before.skip(i as int),
                self@.bridges == old(self)@.bridges,
                self@.config == old(self)@.config,
                self@.next_bridge_sequence == old(self)@.next_bridge_sequence,
                self@.next_event_sequence == old(self)@.next_event_sequence,
            decreases count - i,
        {
            match self.events.pop_front() {
                Some(event) => {
                    drained.push(event);
                },
                None => {},
            }
            proof {
                assert(before.take(i + 1) == before.take(i as int).push(before[i as int]));
                assert(before.skip(i + 1) == before.skip(i as int).subrange(1, before.skip(i as int).len() as int));
            }
            i = i + 1;
        }
        Ok(drained)
    }
}

/// Bounded bridge registry with explicit transitions and deterministic events.
/// It is well formed at all times: bounds respected, bridges in identifier
/// order, and no call, leg or AI stream owned by two bridges.
#[derive(Debug)]
pub struct BridgeRegistry {
    core: BridgeCore,
}

impl View for BridgeRegistry {
    type V = BridgeRegistryView;

    closed spec fn view(&self) -> BridgeRegistryView {
        self.core@
    }
}

impl BridgeRegistry {
    /// Every value is well formed.
    #[verifier::type_invariant]
    pub open spec fn well_formed(self) -> bool {
        registry_wf(self@)
    }

    /// Creates an empty bridge registry.
    pub fn new(config: BridgeRegistryConfig) -> (result: Result<Self, BridgeError>)
        ensures
            result is Err <==> config.max_bridges == 0 || config.max_pending_events == 0,
            result is Err ==> result == Err::<Self, BridgeError>(BridgeError::InvalidConfig),
            result matches Ok(registry) ==> {
                &&& registry@.config == config
                &&& registry@.bridges.len() == 0
                &&& registry@.events.len() == 0
                &&& registry@.next_bridge_sequence == 1
                &&& registry@.next_event_sequence == 1
                &&& registry_wf(registry@)
            },
    {
        match BridgeCore::new(config) {
            Ok(core) => Ok(BridgeRegistry { core }),
            Err(error) => Err(error),
        }
    }

    /// Creates an AI-backed bridge for one stable inbound caller leg.
    pub fn create_ai(
        &mut self,
        caller_call_id: CallId,
        caller_leg_id: LegId,
        ai_stream_id: StreamId,
    ) -> (result: Result<(BridgeId, BridgeEvent), BridgeError>)
        ensures
            registry_wf(final(self)@),
            ({
                let before = old(self)@;
                let after = final(self)@;
                if before.bridges.len() >= before.config.max_bridges {
                    result == Err::<(BridgeId, BridgeEvent), BridgeError>(
                        BridgeError::BridgeLimitReached,
                    ) && after == before
                } else if call_used(before.bridges, caller_call_id@) || leg_used(
                    before.bridges,
                    caller_leg_id@,
                ) || stream_used(before.bridges, ai_stream_id@) {
                    result == Err::<(BridgeId, BridgeEvent), BridgeError>(
                        BridgeError::EndpointInUse,
                    ) && after == before
                } else {
                    match event_capacity_error(before) {
                        Some(error) => result == Err::<(BridgeId, BridgeEvent), BridgeError>(error)
                            && after == before,
                        None => match result {
                            Ok((id, event)) => {
                                &&& before.next_bridge_sequence < after.next_bridge_sequence
                                &&& id@ == bridge_text((after.next_bridge_sequence - 1) as u64)
                                &&& !has_bridge(before.bridges, id@)
                                &&& is_insertion_point(
                                    before.bridges,
                                    id@,
                                    insertion_point(before.bridges, id@),
                                )
                                &&& forall|s: u64|
                                    before.next_bridge_sequence <= s < after.next_bridge_sequence - 1
                                        ==> has_bridge(before.bridges, #[trigger] bridge_text(s))
                                &&& after.bridges == before.bridges.insert(
                                    insertion_point(before.bridges, id@),
                                    BridgeSnapshot {
                                        id,
                                        caller_call_id,
                                        caller_leg_id,
                                        ai_stream_id,
                                        state: BridgeState::AiActive,
                                        active_human: None,
                                        pending_human: None,
                                    },
                                )
                                &&& event.event_id@ == event_text(before.next_event_sequence)
                                &&& event.bridge_id == id
                                &&& event.kind == BridgeEventKind::Created
                                &&& after.events == before.events.push(event)
                                &&& after.next_event_sequence == before.next_event_sequence + 1
                                &&& after.config == before.config
                            },
                            Err(error) => {
                                &&& error == BridgeError::IdentifierExhausted
                                &&& after.bridges == before.bridges
                                &&& after.events == before.events
                                &&& after.config == before.config
                                &&& after.next_event_sequence == before.next_event_sequence
                                &&& after.next_bridge_sequence == u64::MAX
                                &&& forall|s: u64|
                                    before.next_bridge_sequence <= s < u64::MAX ==> has_bridge(
                                        before.bridges,
                                        #[trigger] bridge_text(s),
                                    )
                            },
                        },
                    }
                }
            }),
    {
        proof {
            use_type_invariant(&*self);
        }
        let mut core = BridgeCore::vacant(self.core.config);
        std::mem::swap(&mut core, &mut self.core);
        let result = core.create_ai(caller_call_id, caller_leg_id, ai_stream_id);
        self.core = core;
        result
    }

    /// Starts a human second leg while preserving AI routing until completion.
    pub fn begin_human(&mut self, id: &BridgeId, call_id: CallId, leg_id: LegId) -> (result: Result<
        BridgeEvent,
        BridgeError,
    >)
        ensures
            registry_wf(final(self)@),
            ({
                let before = old(self)@;
                let after = final(self)@;
                if !has_bridge(before.bridges, id@) {
                    result == Err::<BridgeEvent, BridgeError>(BridgeError::UnknownBridge) && after
                        == before
                } else {
                    let index = bridge_index(before.bridges, id@);
                    let bridge = before.bridges[index];
                    if bridge.state != BridgeState::AiActive {
                        result == Err::<BridgeEvent, BridgeError>(
                            BridgeError::InvalidOperation {
                                state: bridge.state,
                                operation: BridgeOperation::BeginHuman,
                            },
                        ) && after == before
                    } else if call_used(before.bridges, call_id@) || leg_used(before.bridges, leg_id@) {
                        result == Err::<BridgeEvent, BridgeError>(BridgeError::EndpointInUse) && after
                            == before
                    } else {
                        match event_capacity_error(before) {
                            Some(error) => result == Err::<BridgeEvent, BridgeError>(error) && after
                                == before,
                            None => result matches Ok(event) && after.bridges == before.bridges.update(
                                index,
                                BridgeSnapshot {
                                    state: BridgeState::ConnectingHuman,
                                    pending_human: Some(HumanLeg { call_id, leg_id }),
                                    ..bridge
                                },
                            ) && emitted(before, after, event, id@, BridgeEventKind::HumanConnecting),
                        }
                    }
                }
            }),
    {
        proof {
            use_type_invariant(&*self);
        }
        let mut core = BridgeCore::vacant(self.core.config);
        std::mem::swap(&mut core, &mut self.core);
        let result = core.begin_human(id, call_id, leg_id);
        self.core = core;
        result
    }

    /// Activates the pending human leg and switches caller media away from AI.
    pub fn complete_human(&mut self, id: &BridgeId) -> (result: Result<BridgeEvent, BridgeError>)
        ensures
            registry_wf(final(self)@),
            ({
                let before = old(self)@;
                let after = final(self)@;
                if !has_bridge(before.bridges, id@) {
                    result == Err::<BridgeEvent, BridgeError>(BridgeError::UnknownBridge) && after
                        == before
                } else {
                    let index = bridge_index(before.bridges, id@);
                    let bridge = before.bridges[index];
                    if bridge.state != BridgeState::ConnectingHuman {
                        result == Err::<BridgeEvent, BridgeError>(
                            BridgeError::InvalidOperation {
                                state: bridge.state,
                                operation: BridgeOperation::CompleteHuman,
                            },
                        ) && after == before
                    } else {
                        match event_capacity_error(before) {
                            Some(error) => result == Err::<BridgeEvent, BridgeError>(error) && after
                                == before,
                            None => result matches Ok(event) && after.bridges == before.bridges.update(
                                index,
                                BridgeSnapshot {
                                    state: BridgeState::HumanActive,
                                    active_human: bridge.pending_human,
                                    pending_human: None,
                                    ..bridge
                                },
                            ) && emitted(before, after, event, id@, BridgeEventKind::HumanConnected),
                        }
                    }
                }
            }),
    {
        proof {
            use_type_invariant(&*self);
        }
        let mut core = BridgeCore::vacant(self.core.config);
        std::mem::swap(&mut core, &mut self.core);
        let result = core.complete_human(id);
        self.core = core;
        result
    }

    /// Fails a pending or active human leg and deterministically restores AI.
    pub fn fail_human(&mut self, id: &BridgeId) -> (result: Result<BridgeEvent, BridgeError>)
        ensures
            registry_wf(final(self)@),
            ({
                let before = old(self)@;
                let after = final(self)@;
                if !has_bridge(before.bridges, id@) {
                    result == Err::<BridgeEvent, BridgeError>(BridgeError::UnknownBridge) && after
                        == before
                } else {
                    let index = bridge_index(before.bridges, id@);
                    let bridge = before.bridges[index];
                    if bridge.state != BridgeState::ConnectingHuman && bridge.state
                        != BridgeState::HumanActive {
                        result == Err::<BridgeEvent, BridgeError>(
                            BridgeError::InvalidOperation {
                                state: bridge.state,
                                operation: BridgeOperation::FailHuman,
                            },
                        ) && after == before
                    } else {
                        match event_capacity_error(before) {
                            Some(error) => result == Err::<BridgeEvent, BridgeError>(error) && after
                                == before,
                            None => result matches Ok(event) && after.bridges == before.bridges.update(
                                index,
                                BridgeSnapshot {
                                    state: BridgeState::AiActive,
                                    active_human: None,
                                    pending_human: None,
                                    ..bridge
                                },
                            ) && emitted(before, after, event, id@, BridgeEventKind::HumanFailed),
                        }
                    }
                }
            }),
    {
        proof {
            use_type_invariant(&*self);
        }
        let mut core = BridgeCore::vacant(self.core.config);
        std::mem::swap(&mut core, &mut self.core);
        let result = core.fail_human(id);
        self.core = core;
        result
    }

    /// Explicitly switches an active human bridge back to the retained AI stream.
    pub fn resume_ai(&mut self, id: &BridgeId) -> (result: Result<BridgeEvent, BridgeError>)
        ensures
            registry_wf(final(self)@),
            ({
                let before = old(self)@;
                let after = final(self)@;
                if !has_bridge(before.bridges, id@) {
                    result == Err::<BridgeEvent, BridgeError>(BridgeError::UnknownBridge) && after
                        == before
                } else {
                    let index = bridge_index(before.bridges, id@);
                    let bridge = before.bridges[index];
                    if bridge.state != BridgeState::HumanActive {
                        result == Err::<BridgeEvent, BridgeError>(
                            BridgeError::InvalidOperation {
                                state: bridge.state,
                                operation: BridgeOperation::ResumeAi,
                            },
                        ) && after == before
                    } else {
                        match event_capacity_error(before) {
                            Some(error) => result == Err::<BridgeEvent, BridgeError>(error) && after
                                == before,
                            None => result matches Ok(event) && after.bridges == before.bridges.update(
                                index,
                                BridgeSnapshot {
                                    state: BridgeState::AiActive,
                                    active_human: None,
                                    ..bridge
                                },
                            ) && emitted(before, after, event, id@, BridgeEventKind::AiResumed),
                        }
                    }
                }
            }),
    {
        proof {
            use_type_invariant(&*self);
        }
        let mut core = BridgeCore::vacant(self.core.config);
        std::mem::swap(&mut core, &mut self.core);
        let result = core.resume_ai(id);
        self.core = core;
        result
    }

    /// Ends forwarding and releases human endpoints from the retained snapshot.
    pub fn end(&mut self, id: &BridgeId) -> (result: Result<BridgeEvent, BridgeError>)
        ensures
            registry_wf(final(self)@),
            ({
                let before = old(self)@;
                let after = final(self)@;
                if !has_bridge(before.bridges, id@) {
                    result == Err::<BridgeEvent, BridgeError>(BridgeError::UnknownBridge) && after
                        == before
                } else {
                    let index = bridge_index(before.bridges, id@);
                    let bridge = before.bridges[index];
                    if bridge.state == BridgeState::Ended {
                        result == Err::<BridgeEvent, BridgeError>(
                            BridgeError::InvalidOperation {
                                state: bridge.state,
                                operation: BridgeOperation::End,
                            },
                        ) && after == before
                    } else {
                        match event_capacity_error(before) {
                            Some(error) => result == Err::<BridgeEvent, BridgeError>(error) && after
                                == before,
                            None => result matches Ok(event) && after.bridges == before.bridges.update(
                                index,
                                BridgeSnapshot {
                                    state: BridgeState::Ended,
                                    active_human: None,
                                    pending_human: None,
                                    ..bridge
                                },
                            ) && emitted(before, after, event, id@, BridgeEventKind::Ended),
                        }
                    }
                }
            }),
    {
        proof {
            use_type_invariant(&*self);
        }
        let mut core = BridgeCore::vacant(self.core.config);
        std::mem::swap(&mut core, &mut self.core);
        let result = core.end(id);
        self.core = core;
        result
    }

    /// Removes an ended bridge so its caller, leg, stream, and record slot can be reused.
    pub fn remove_terminal(&mut self, id: &BridgeId) -> (result: Result<BridgeSnapshot, BridgeError>)
        ensures
            registry_wf(final(self)@),
            ({
                let before = old(self)@;
                let after = final(self)@;
                if !has_bridge(before.bridges, id@) {
                    result == Err::<BridgeSnapshot, BridgeError>(BridgeError::UnknownBridge) && after
                        == before
                } else {
                    let index = bridge_index(before.bridges, id@);
                    let bridge = before.bridges[index];
                    if bridge.state != BridgeState::Ended {
                        result == Err::<BridgeSnapshot, BridgeError>(
                            BridgeError::InvalidOperation {
                                state: bridge.state,
                                operation: BridgeOperation::Reclaim,
                            },
                        ) && after == before
                    } else {
                        result == Ok::<BridgeSnapshot, BridgeError>(bridge) && after.bridges
                            == before.bridges.remove(index) && after.events == before.events
                            && after.config == before.config && after.next_bridge_sequence
                            == before.next_bridge_sequence && after.next_event_sequence
                            == before.next_event_sequence
                    }
                }
            }),
    {
        proof {
            use_type_invariant(&*self);
        }
        let mut core = BridgeCore::vacant(self.core.config);
        std::mem::swap(&mut core, &mut self.core);
        let result = core.remove_terminal(id);
        self.core = core;
        result
    }

    /// Returns one stable bridge snapshot.
    pub fn snapshot(&self, id: &BridgeId) -> (result: Result<BridgeSnapshot, BridgeError>)
        ensures
            has_bridge(self@.bridges, id@) ==> result == Ok::<BridgeSnapshot, BridgeError>(
                self@.bridges[bridge_index(self@.bridges, id@)],
            ),
            !has_bridge(self@.bridges, id@) ==> result == Err::<BridgeSnapshot, BridgeError>(
                BridgeError::UnknownBridge,
            ),
    {
        proof {
            use_type_invariant(self);
        }
        self.core.snapshot(id)
    }

    /// Lists retained bridges in deterministic identifier order.
    pub fn list(&self, limit: usize) -> (result: Result<Vec<BridgeSnapshot>, BridgeError>)
        ensures
            limit == 0 ==> result == Err::<Vec<BridgeSnapshot>, BridgeError>(
                BridgeError::InvalidLimit,
            ),
            limit > 0 ==> (result matches Ok(snapshots) && snapshots@ == self@.bridges.take(
                if limit < self@.bridges.len() {
                    limit as int
                } else {
                    self@.bridges.len() as int
                },
            )),
    {
        proof {
            use_type_invariant(self);
        }
        self.core.list(limit)
    }

    /// Returns the configured registry bounds.
    pub fn config(&self) -> (config: BridgeRegistryConfig)
        ensures
            config == self@.config,
    {
        proof {
            use_type_invariant(self);
        }
        self.core.config()
    }

    /// Returns the number of undelivered bridge events.
    pub fn pending_events(&self) -> (count: usize)
        ensures
            count == self@.events.len(),
    {
        proof {
            use_type_invariant(self);
        }
        self.core.pending_events()
    }

    /// Drains bridge events in emission order.
    pub fn drain_events(&mut self, limit: usize) -> (result: Result<Vec<BridgeEvent>, BridgeError>)
        ensures
            registry_wf(final(self)@),
            limit == 0 ==> result == Err::<Vec<BridgeEvent>, BridgeError>(BridgeError::InvalidLimit)
                && final(self)@ == old(self)@,
            limit > 0 ==> {
                let count = if limit < old(self)@.events.len() {
                    limit as int
                } else {
                    old(self)@.events.len() as int
                };
                &&& result matches Ok(events) && events@ == old(self)@.events.take(count)
                &&& final(self)@.events == old(self)@.events.skip(count)
                &&& final(self)@.bridges == old(self)@.bridges
                &&& final(self)@.config == old(self)@.config
                &&& final(self)@.next_bridge_sequence == old(self)@.next_bridge_sequence
                &&& final(self)@.next_event_sequence == old(self)@.next_event_sequence
            },
    {
        proof {
            use_type_invariant(&*self);
        }
        let mut core = BridgeCore::vacant(self.core.config);
        std::mem::swap(&mut core, &mut self.core);
        let result = core.drain_events(limit);
        self.core = core;
        result
    }
}

pub open spec fn is_insertion_point(bridges: Seq<BridgeSnapshot>, id: Seq<char>, i: int) -> bool {
    &&& 0 <= i <= bridges.len()
    &&& forall|j: int| 0 <= j < i ==> text_lt(#[trigger] bridges[j].id@, id)
    &&& forall|j: int| i <= j < bridges.len() ==> text_lt(id, #[trigger] bridges[j].id@)
}

/// Where a new identifier goes among bridges sorted by identifier.
pub open spec fn insertion_point(bridges: Seq<BridgeSnapshot>, id: Seq<char>) -> int {
    choose|i: int| is_insertion_point(bridges, id, i)
}

proof fn lemma_insertion_point_unique(bridges: Seq<BridgeSnapshot>, id: Seq<char>, i: int)
    requires
        is_insertion_point(bridges, id, i),
    ensures
        insertion_point(bridges, id) == i,
        is_insertion_point(bridges, id, insertion_point(bridges, id)),
{
    let k = insertion_point(bridges, id);
    assert(is_insertion_point(bridges, id, k));
    if k < i {
        lemma_text_order(bridges[k].id@, id, bridges[k].id@);
    } else if i < k {
        lemma_text_order(bridges[i].id@, id, bridges[i].id@);
    }
}

proof fn lemma_insert_sorted(bridges: Seq<BridgeSnapshot>, snapshot: BridgeSnapshot, i: int)
    requires
        sorted_bridges(bridges),
        is_insertion_point(bridges, snapshot.id@, i),
    ensures
        sorted_bridges(bridges.insert(i, snapshot)),
{
    let result = bridges.insert(i, snapshot);
    assert forall|a: int, b: int| 0 <= a < b < result.len() implies text_lt(
        #[trigger] result[a].id@,
        #[trigger] result[b].id@,
    ) by {
        if b < i {
            assert(result[a] == bridges[a] && result[b] == bridges[b]);
        } else if b == i {
            assert(result[a] == bridges[a]);
        } else if a == i {
            assert(result[b] == bridges[b - 1]);
        } else if a < i {
            assert(result[a] == bridges[a] && result[b] == bridges[b - 1]);
        } else {
            assert(result[a] == bridges[a - 1] && result[b] == bridges[b - 1]);
        }
    }
}

proof fn lemma_insert_exclusive(bridges: Seq<BridgeSnapshot>, i: int, snapshot: BridgeSnapshot)
    requires
        endpoints_exclusive(bridges),
        0 <= i <= bridges.len(),
        snapshot.active_human is None,
        snapshot.pending_human is None,
        snapshot.state == BridgeState::AiActive,
        !call_used(bridges, snapshot.caller_call_id@),
        !leg_used(bridges, snapshot.caller_leg_id@),
        !stream_used(bridges, snapshot.ai_stream_id@),
    ensures
        endpoints_exclusive(bridges.insert(i, snapshot)),
{
    let result = bridges.insert(i, snapshot);
    assert forall|a: int| 0 <= a < result.len() implies bridge_shape(#[trigger] result[a]) by {
        if a < i {
            assert(result[a] == bridges[a]);
        } else if a > i {
            assert(result[a] == bridges[a - 1]);
        }
    }
    assert forall|a: int, b: int, call: Seq<char>|
        0 <= a < result.len() && 0 <= b < result.len() && a != b && #[trigger] uses_call(
            result[a],
            call,
        ) implies !#[trigger] uses_call(result[b], call) by {
        let oa = if a < i {
            a
        } else {
            a - 1
        };
        let ob = if b < i {
            b
        } else {
            b - 1
        };
        if a == i {
            assert(result[b] == bridges[ob]);
        } else if b == i {
            assert(result[a] == bridges[oa]);
        } else {
            assert(result[a] == bridges[oa] && result[b] == bridges[ob]);
        }
    }
    assert forall|a: int, b: int, leg: Seq<char>|
        0 <= a < result.len() && 0 <= b < result.len() && a != b && #[trigger] uses_leg(
            result[a],
            leg,
        ) implies !#[trigger] uses_leg(result[b], leg) by {
        let oa = if a < i {
            a
        } else {
            a - 1
        };
        let ob = if b < i {
            b
        } else {
            b - 1
        };
        if a == i {
            assert(result[b] == bridges[ob]);
        } else if b == i {
            assert(result[a] == bridges[oa]);
        } else {
            assert(result[a] == bridges[oa] && result[b] == bridges[ob]);
        }
    }
    assert forall|a: int, b: int|
        0 <= a < result.len() && 0 <= b < result.len() && a != b implies (#[trigger] result[a]).ai_stream_id@
        != (#[trigger] result[b]).ai_stream_id@ by {
        let oa = if a < i {
            a
        } else {
            a - 1
        };
        let ob = if b < i {
            b
        } else {
            b - 1
        };
        if a == i {
            assert(result[b] == bridges[ob]);
        } else if b == i {
            assert(result[a] == bridges[oa]);
        } else {
            assert(result[a] == bridges[oa] && result[b] == bridges[ob]);
        }
    }
}

proof fn lemma_update_exclusive(bridges: Seq<BridgeSnapshot>, i: int, updated: BridgeSnapshot)
    requires
        endpoints_exclusive(bridges),
        0 <= i < bridges.len(),
        bridge_shape(updated),
        updated.caller_call_id == bridges[i].caller_call_id,
        updated.caller_leg_id == bridges[i].caller_leg_id,
        updated.ai_stream_id == bridges[i].ai_stream_id,
        forall|call: Seq<char>| #[trigger]
            uses_call(updated, call) ==> uses_call(bridges[i], call) || !call_used(bridges, call),
        forall|leg: Seq<char>| #[trigger]
            uses_leg(updated, leg) ==> uses_leg(bridges[i], leg) || !leg_used(bridges, leg),
    ensures
        endpoints_exclusive(bridges.update(i, updated)),
{
    let result = bridges.update(i, updated);
    assert forall|a: int| 0 <= a < result.len() implies bridge_shape(#[trigger] result[a]) by {
        if a != i {
            assert(result[a] == bridges[a]);
        }
    }
    assert forall|a: int, b: int, call: Seq<char>|
        0 <= a < result.len() && 0 <= b < result.len() && a != b && #[trigger] uses_call(
            result[a],
            call,
        ) implies !#[trigger] uses_call(result[b], call) by {
        if a == i {
            assert(result[b] == bridges[b]);
            if uses_call(bridges[b], call) {
                assert(call_used(bridges, call));
                assert(uses_call(bridges[i], call));
            }
        } else if b == i {
            assert(result[a] == bridges[a]);
            assert(call_used(bridges, call));
        } else {
            assert(result[a] == bridges[a] && result[b] == bridges[b]);
        }
    }
    assert forall|a: int, b: int, leg: Seq<char>|
        0 <= a < result.len() && 0 <= b < result.len() && a != b && #[trigger] uses_leg(
            result[a],
            leg,
        ) implies !#[trigger] uses_leg(result[b], leg) by {
        if a == i {
            assert(result[b] == bridges[b]);
            if uses_leg(bridges[b], leg) {
                assert(leg_used(bridges, leg));
                assert(uses_leg(bridges[i], leg));
            }
        } else if b == i {
            assert(result[a] == bridges[a]);
            assert(leg_used(bridges, leg));
        } else {
            assert(result[a] == bridges[a] && result[b] == bridges[b]);
        }
    }
    assert forall|a: int, b: int|
        0 <= a < result.len() && 0 <= b < result.len() && a != b implies (#[trigger] result[a]).ai_stream_id@
        != (#[trigger] result[b]).ai_stream_id@ by {
        if a != i {
            assert(result[a] == bridges[a]);
        }
        if b != i {
            assert(result[b] == bridges[b]);
        }
    }
}

proof fn lemma_update_sorted(bridges: Seq<BridgeSnapshot>, i: int, updated: BridgeSnapshot)
    requires
        sorted_bridges(bridges),
        0 <= i < bridges.len(),
        updated.id == bridges[i].id,
    ensures
        sorted_bridges(bridges.update(i, updated)),
{
    let result = bridges.update(i, updated);
    assert forall|a: int, b: int| 0 <= a < b < result.len() implies text_lt(
        #[trigger] result[a].id@,
        #[trigger] result[b].id@,
    ) by {
        assert(result[a].id == bridges[a].id && result[b].id == bridges[b].id);
    }
}

proof fn lemma_remove_keeps_wf(bridges: Seq<BridgeSnapshot>, i: int)
    requires
        sorted_bridges(bridges),
        endpoints_exclusive(bridges),
        0 <= i < bridges.len(),
    ensures
        sorted_bridges(bridges.remove(i)),
        endpoints_exclusive(bridges.remove(i)),
{
    let result = bridges.remove(i);
    assert forall|a: int| 0 <= a < result.len() implies result[a] == bridges[if a < i {
        a
    } else {
        a + 1
    }] by {}
    assert forall|a: int, b: int| 0 <= a < b < result.len() implies text_lt(
        #[trigger] result[a].id@,
        #[trigger] result[b].id@,
    ) by {
        let oa = if a < i {
            a
        } else {
            a + 1
        };
        let ob = if b < i {
            b
        } else {
            b + 1
        };
        assert(result[a] == bridges[oa] && result[b] == bridges[ob]);
    }
    assert forall|a: int| 0 <= a < result.len() implies bridge_shape(#[trigger] result[a]) by {
        assert(result[a] == bridges[if a < i {
            a
        } else {
            a + 1
        }]);
    }
    assert forall|a: int, b: int, call: Seq<char>|
        0 <= a < result.len() && 0 <= b < result.len() && a != b && #[trigger] uses_call(
            result[a],
            call,
        ) implies !#[trigger] uses_call(result[b], call) by {
        let oa = if a < i {
            a
        } else {
            a + 1
        };
        let ob = if b < i {
            b
        } else {
            b + 1
        };
        assert(result[a] == bridges[oa] && result[b] == bridges[ob]);
    }
    assert forall|a: int, b: int, leg: Seq<char>|
        0 <= a < result.len() && 0 <= b < result.len() && a != b && #[trigger] uses_leg(
            result[a],
            leg,
        ) implies !#[trigger] uses_leg(result[b], leg) by {
        let oa = if a < i {
            a
        } else {
            a + 1
        };
        let ob = if b < i {
            b
        } else {
            b + 1
        };
        assert(result[a] == bridges[oa] && result[b] == bridges[ob]);
    }
    assert forall|a: int, b: int|
        0 <= a < result.len() && 0 <= b < result.len() && a != b implies (#[trigger] result[a]).ai_stream_id@
        != (#[trigger] result[b]).ai_stream_id@ by {
        let oa = if a < i {
            a
        } else {
            a + 1
        };
        let ob = if b < i {
            b
        } else {
            b + 1
        };
        assert(result[a] == bridges[oa] && result[b] == bridges[ob]);
    }
}

/// Retained bridge identifiers are distinct, so a matching position is the one
/// `bridge_index` names.
pub proof fn lemma_unique_index(bridges: Seq<BridgeSnapshot>, id: Seq<char>, i: int)
    requires
        sorted_bridges(bridges),
        0 <= i < bridges.len(),
        bridges[i].id@ == id,
    ensures
        bridge_index(bridges, id) == i,
{
    let k = bridge_index(bridges, id);
    assert(0 <= k < bridges.len() && bridges[k].id@ == id);
    if k < i {
        assert(text_lt(bridges[k].id@, bridges[i].id@));
        lemma_text_order(id, id, id);
    } else if i < k {
        assert(text_lt(bridges[i].id@, bridges[k].id@));
        lemma_text_order(id, id, id);
    }
}

/// A bridge that `create_ai` inserted is what a later snapshot of its
/// identifier returns: the inserted position is the one the identifier
/// is found at.
pub proof fn law_created_bridge_is_found(
    before: Seq<BridgeSnapshot>,
    after: Seq<BridgeSnapshot>,
    created: BridgeSnapshot,
)
    requires
        sorted_bridges(after),
        is_insertion_point(before, created.id@, insertion_point(before, created.id@)),
        after == before.insert(insertion_point(before, created.id@), created),
    ensures
        has_bridge(after, created.id@),
        after[bridge_index(after, created.id@)] == created,
{
    let i = insertion_point(before, created.id@);
    assert(after[i] == created);
    lemma_unique_index(after, created.id@, i);
}

} // verus!
