//! State-gated forwarding decisions between caller and human media legs.
//!
//! The bridge registry gates every forwarded datagram: a media pair is only
//! usable while its bridge routes media to the same active human leg. RFC 4733
//! telephone events are relayed on the destination leg's RTP clock, so a
//! retransmitted event keeps one stable destination timestamp and audio that
//! follows an event resumes after the longest relayed duration.

use vstd::prelude::*;

use crate::bridge::{
    bridge_index, has_bridge, BridgeError, BridgeRegistry, BridgeSnapshot,
    BridgeState,
};
use crate::call_core::{BridgeId, CallId, LegId};
use crate::dtmf::{DtmfEvent, Notification};
use crate::media::PushOutcome;

verus! {

/// Direction of one caller/human media forwarding operation.
#[derive(Clone, Copy, Debug, PartialEq, Eq, Structural)]
pub enum HumanMediaDirection {
    /// Decode caller RTP and deliver it to the active human leg.
    CallerToHuman,
    /// Decode human RTP and deliver it to the retained caller leg.
    HumanToCaller,
}

/// Result of one accepted RTP datagram at the human-media boundary.
#[derive(Clone, Copy, Debug, PartialEq, Eq)]
pub enum HumanMediaForward {
    /// One decoded audio frame was offered to the opposite bounded queue and sent.
    Audio {
        /// Direction in which the frame moved.
        direction: HumanMediaDirection,
        /// Size of the accepted inbound RTP datagram.
        received_bytes: usize,
        /// Size of the re-encoded outbound RTP datagram.
        sent_bytes: usize,
        /// Backpressure result from the inbound leg's decoded-audio queue.
        inbound_queue: PushOutcome,
        /// Backpressure result from the outbound leg's RTP queue.
        outbound_queue: PushOutcome,
    },
    /// One validated telephone-event packet was retained and re-encoded for the opposite leg.
    Dtmf {
        /// Direction in which the packet arrived.
        direction: HumanMediaDirection,
        /// Size of the accepted inbound RTP datagram.
        received_bytes: usize,
        /// Size of the re-encoded outbound RTP datagram.
        sent_bytes: usize,
        /// Exact validated RFC 4733 event that was relayed.
        event: DtmfEvent,
        /// Deduplicated application notification, when this packet changed event state.
        notification: Option<Notification>,
    },
}

/// Whether an RTP timestamp is newer than another under 32-bit wrap-around:
/// it lies strictly ahead by less than half the timestamp space.
pub open spec fn is_newer(candidate: u32, reference: u32) -> bool {
    let distance = candidate.wrapping_sub(reference);
    distance != 0 && distance < 0x8000_0000
}

/// Whether `candidate` is newer than `reference` in RTP timestamp order.
pub fn timestamp_is_newer(candidate: u32, reference: u32) -> (newer: bool)
    ensures
        newer == is_newer(candidate, reference),
{
    let distance = candidate.wrapping_sub(reference);
    // 2^31: half of the timestamp space.
    distance != 0 && distance < 0x8000_0000
}

/// The most recent telephone event relayed in one direction.
#[derive(Clone, Copy, Debug, PartialEq, Eq, Structural)]
pub struct RelayedDtmfEvent {
    /// RTP timestamp of the event on the source leg.
    pub source_timestamp: u32,
    /// RTP timestamp the event carries on the destination leg.
    pub destination_timestamp: u32,
    /// Longest duration relayed for the event so far.
    pub maximum_duration: u16,
    /// Whether following audio has already been placed after the event.
    pub audio_clock_synchronized: bool,
}

/// Maps source telephone-event timestamps onto the destination RTP clock.
#[derive(Debug, PartialEq, Eq, Structural)]
pub struct DtmfRelayClock {
    timestamp_offset: Option<u32>,
    latest: Option<RelayedDtmfEvent>,
}

/// A relay clock as its contracts see it.
pub struct DtmfRelayClockView {
    pub timestamp_offset: Option<u32>,
    pub latest: Option<RelayedDtmfEvent>,
}

impl View for DtmfRelayClock {
    type V = DtmfRelayClockView;

    closed spec fn view(&self) -> DtmfRelayClockView {
        DtmfRelayClockView { timestamp_offset: self.timestamp_offset, latest: self.latest }
    }
}

impl Default for DtmfRelayClock {
    fn default() -> (clock: Self)
        ensures
            clock@.timestamp_offset is None,
            clock@.latest is None,
    {
        DtmfRelayClock { timestamp_offset: None, latest: None }
    }
}

/// The clock offset a packet is mapped with: the one fixed by the first
/// relayed packet, which aligns it with the destination's next timestamp.
pub open spec fn mapping_offset(before: DtmfRelayClockView, source: u32, next_destination: u32) -> u32 {
    match before.timestamp_offset {
        Some(offset) => offset,
        None => next_destination.wrapping_sub(source),
    }
}

/// The latest relayed event after a packet: a newer event replaces it; a
/// retransmission of the same event before audio resumed extends its
/// longest duration; anything else leaves it.
pub open spec fn next_latest(
    latest: Option<RelayedDtmfEvent>,
    source: u32,
    destination: u32,
    duration: u16,
) -> Option<RelayedDtmfEvent> {
    match latest {
        None => Some(
            RelayedDtmfEvent {
                source_timestamp: source,
                destination_timestamp: destination,
                maximum_duration: duration,
                audio_clock_synchronized: false,
            },
        ),
        Some(event) => if is_newer(source, event.source_timestamp) {
            Some(
                RelayedDtmfEvent {
                    source_timestamp: source,
                    destination_timestamp: destination,
                    maximum_duration: duration,
                    audio_clock_synchronized: false,
                },
            )
        } else if event.source_timestamp == source && !event.audio_clock_synchronized {
            Some(
                RelayedDtmfEvent {
                    maximum_duration: if duration > event.maximum_duration {
                        duration
                    } else {
                        event.maximum_duration
                    },
                    ..event
                },
            )
        } else {
            latest
        },
    }
}

/// Where audio resumes after the latest event: the mapped audio timestamp,
/// unless it is not newer than the end of the event.
pub open spec fn resumed_timestamp(offset: u32, event: RelayedDtmfEvent, audio: u32) -> u32 {
    let event_end = event.destination_timestamp.wrapping_add(event.maximum_duration as u32);
    let mapped = audio.wrapping_add(offset);
    if is_newer(mapped, event_end) {
        mapped
    } else {
        event_end
    }
}

impl DtmfRelayClock {
    /// Maps one telephone-event packet onto the destination clock and
    /// records it as the latest relayed event where it is one.
    pub fn map_packet(&mut self, source_timestamp: u32, duration: u16, next_destination_timestamp: u32) -> (destination_timestamp: u32)
        ensures
            ({
                let offset = mapping_offset(
                    old(self)@,
                    source_timestamp,
                    next_destination_timestamp,
                );
                &&& destination_timestamp == source_timestamp.wrapping_add(offset)
                &&& final(self)@.timestamp_offset == Some(offset)
                &&& final(self)@.latest == next_latest(
                    old(self)@.latest,
                    source_timestamp,
                    destination_timestamp,
                    duration,
                )
            }),
    {
        let offset = match self.timestamp_offset {
            Some(offset) => offset,
            None => next_destination_timestamp.wrapping_sub(source_timestamp),
        };
        self.timestamp_offset = Some(offset);
        let destination_timestamp = source_timestamp.wrapping_add(offset);
        let replace_latest = match self.latest {
            None => true,
            Some(latest) => timestamp_is_newer(source_timestamp, latest.source_timestamp),
        };
        if replace_latest {
            self.latest = Some(
                RelayedDtmfEvent {
                    source_timestamp,
                    destination_timestamp,
                    maximum_duration: duration,
                    audio_clock_synchronized: false,
                },
            );
        } else {
            match self.latest {
                Some(latest) => {
                    if latest.source_timestamp == source_timestamp
                        && !latest.audio_clock_synchronized {
                        let maximum_duration = if duration > latest.maximum_duration {
                            duration
                        } else {
                            latest.maximum_duration
                        };
                        self.latest = Some(RelayedDtmfEvent { maximum_duration, ..latest });
                    }
                },
                None => {},
            }
        }
        destination_timestamp
    }

    /// Decides where the destination's audio clock resumes before the first
    /// audio packet after a relayed event.
    ///
    /// Returns the timestamp to give the destination leg's next audio packet,
    /// once per event; `None` when no event is pending synchronization.
    pub fn synchronize_before_audio(&mut self, source_audio_timestamp: u32) -> (resumed: Option<u32>)
        ensures
            match (old(self)@.timestamp_offset, old(self)@.latest) {
                (Some(offset), Some(event)) => if event.audio_clock_synchronized {
                    resumed is None && final(self)@ == old(self)@
                } else {
                    &&& resumed == Some(resumed_timestamp(offset, event, source_audio_timestamp))
                    &&& final(self)@.timestamp_offset == old(self)@.timestamp_offset
                    &&& final(self)@.latest == Some(
                        RelayedDtmfEvent { audio_clock_synchronized: true, ..event },
                    )
                },
                _ => resumed is None && final(self)@ == old(self)@,
            },
    {
        let timestamp_offset = match self.timestamp_offset {
            Some(offset) => offset,
            None => return None,
        };
        let latest = match self.latest {
            Some(latest) => latest,
            None => return None,
        };
        if latest.audio_clock_synchronized {
            return None;
        }
        let event_end = latest.destination_timestamp.wrapping_add(latest.maximum_duration as u32);
        let mapped_audio = source_audio_timestamp.wrapping_add(timestamp_offset);
        let resumed_timestamp = if timestamp_is_newer(mapped_audio, event_end) {
            mapped_audio
        } else {
            event_end
        };
        self.latest = Some(RelayedDtmfEvent { audio_clock_synchronized: true, ..latest });
        Some(resumed_timestamp)
    }

    /// The latest relayed event, if any.
    pub fn latest(&self) -> (latest: Option<RelayedDtmfEvent>)
        ensures
            latest == self@.latest,
    {
        self.latest
    }

    /// The fixed source-to-destination clock offset, once a packet was mapped.
    pub fn timestamp_offset(&self) -> (offset: Option<u32>)
        ensures
            offset == self@.timestamp_offset,
    {
        self.timestamp_offset
    }
}

/// Errors raised by the state gate in front of human media forwarding.
#[derive(Clone, Copy, Debug, PartialEq, Eq, Structural)]
pub enum HumanMediaBridgeError {
    /// The bridge registry could not resolve the configured bridge.
    Bridge(BridgeError),
    /// The bridge is not currently routing media to a human.
    NotHumanActive {
        /// Current routing state that rejected media forwarding.
        state: BridgeState,
    },
    /// The registry's caller or active-human identities no longer match this media pair.
    EndpointMismatch,
    /// An accepted audio datagram did not leave a decoded frame in the bounded queue.
    MissingDecodedAudio,
    /// A queued frame unexpectedly disappeared before RTP serialization.
    MissingOutboundAudio,
}

/// The bridge identities a caller/human media pair is attached to, and the
/// telephone-event clocks of its two directions.
#[derive(Debug)]
pub struct HumanMediaBridgeRuntime {
    bridge_id: BridgeId,
    caller_call_id: CallId,
    caller_leg_id: LegId,
    human_call_id: CallId,
    human_leg_id: LegId,
    caller_to_human_dtmf: DtmfRelayClock,
    human_to_caller_dtmf: DtmfRelayClock,
}

/// The identities a media pair is attached to.
pub struct MediaPairView {
    pub bridge_id: Seq<char>,
    pub caller_call_id: Seq<char>,
    pub caller_leg_id: Seq<char>,
    pub human_call_id: Seq<char>,
    pub human_leg_id: Seq<char>,
    pub caller_to_human: DtmfRelayClockView,
    pub human_to_caller: DtmfRelayClockView,
}

impl View for HumanMediaBridgeRuntime {
    type V = MediaPairView;

    closed spec fn view(&self) -> MediaPairView {
        MediaPairView {
            bridge_id: self.bridge_id@,
            caller_call_id: self.caller_call_id@,
            caller_leg_id: self.caller_leg_id@,
            human_call_id: self.human_call_id@,
            human_leg_id: self.human_leg_id@,
            caller_to_human: self.caller_to_human_dtmf@,
            human_to_caller: self.human_to_caller_dtmf@,
        }
    }
}

/// Whether a bridge still routes media between the pair's caller and human.
pub open spec fn pair_matches(pair: MediaPairView, bridge: BridgeSnapshot) -> bool {
    &&& bridge.caller_call_id@ == pair.caller_call_id
    &&& bridge.caller_leg_id@ == pair.caller_leg_id
    &&& bridge.active_human matches Some(human) && human.call_id@ == pair.human_call_id
        && human.leg_id@ == pair.human_leg_id
}

/// Whether the current bridge state lets a media pair forward, and if not, why.
pub open spec fn gate(pair: MediaPairView, bridges: Seq<BridgeSnapshot>) -> Result<(), HumanMediaBridgeError> {
    if !has_bridge(bridges, pair.bridge_id) {
        Err(HumanMediaBridgeError::Bridge(BridgeError::UnknownBridge))
    } else {
        let bridge = bridges[bridge_index(bridges, pair.bridge_id)];
        if bridge.state != BridgeState::HumanActive {
            Err(HumanMediaBridgeError::NotHumanActive { state: bridge.state })
        } else if !pair_matches(pair, bridge) {
            Err(HumanMediaBridgeError::EndpointMismatch)
        } else {
            Ok(())
        }
    }
}

impl HumanMediaBridgeRuntime {
    /// Attaches a media pair to a currently active human bridge snapshot.
    ///
    /// Refused with `NotHumanActive` until the human leg is answered, and
    /// with `EndpointMismatch` when an active snapshot lacks a human leg.
    pub fn new(bridge: &BridgeSnapshot) -> (result: Result<Self, HumanMediaBridgeError>)
        ensures
            bridge.state != BridgeState::HumanActive ==> result == Err::<
                Self,
                HumanMediaBridgeError,
            >(HumanMediaBridgeError::NotHumanActive { state: bridge.state }),
            bridge.state == BridgeState::HumanActive && bridge.active_human is None ==> result
                == Err::<Self, HumanMediaBridgeError>(HumanMediaBridgeError::EndpointMismatch),
            bridge.state == BridgeState::HumanActive && bridge.active_human is Some ==> (
            result matches Ok(pair) && pair@.bridge_id == bridge.id@ && pair_matches(
                pair@,
                *bridge,
            ) && pair@.caller_to_human == (DtmfRelayClockView {
                timestamp_offset: None,
                latest: None,
            }) && pair@.human_to_caller == (DtmfRelayClockView {
                timestamp_offset: None,
                latest: None,
            })),
    {
        if bridge.state != BridgeState::HumanActive {
            return Err(HumanMediaBridgeError::NotHumanActive { state: bridge.state });
        }
        let human = match &bridge.active_human {
            Some(human) => human,
            None => return Err(HumanMediaBridgeError::EndpointMismatch),
        };
        Ok(
            HumanMediaBridgeRuntime {
                bridge_id: bridge.id.clone(),
                caller_call_id: bridge.caller_call_id.clone(),
                caller_leg_id: bridge.caller_leg_id.clone(),
                human_call_id: human.call_id.clone(),
                human_leg_id: human.leg_id.clone(),
                caller_to_human_dtmf: DtmfRelayClock::default(),
                human_to_caller_dtmf: DtmfRelayClock::default(),
            },
        )
    }

    /// Returns the bridge identity whose state gates this media pair.
    pub fn bridge_id(&self) -> (id: &BridgeId)
        ensures
            id@ == self@.bridge_id,
    {
        &self.bridge_id
    }

    /// Checks, before any datagram is read, that the bridge still routes
    /// media to this pair's human leg with the same endpoints.
    pub fn validate(&self, bridges: &BridgeRegistry) -> (result: Result<(), HumanMediaBridgeError>)
        ensures
            result == gate(self@, bridges@.bridges),
    {
        proof {
            use_type_invariant(bridges);
        }
        let snapshot = match bridges.snapshot(&self.bridge_id) {
            Ok(snapshot) => snapshot,
            Err(error) => return Err(HumanMediaBridgeError::Bridge(error)),
        };
        if snapshot.state != BridgeState::HumanActive {
            return Err(HumanMediaBridgeError::NotHumanActive { state: snapshot.state });
        }
        let endpoints_match = snapshot.caller_call_id.same_as(&self.caller_call_id)
            && snapshot.caller_leg_id.same_as(&self.caller_leg_id) && match &snapshot.active_human {
            Some(human) => human.call_id.same_as(&self.human_call_id) && human.leg_id.same_as(
                &self.human_leg_id,
            ),
            None => false,
        };
        if !endpoints_match {
            return Err(HumanMediaBridgeError::EndpointMismatch);
        }
        Ok(())
    }

    /// Maps a caller telephone event onto the human leg's clock.
    pub fn map_caller_dtmf(&mut self, source_timestamp: u32, duration: u16, next_destination_timestamp: u32) -> (destination_timestamp: u32)
        ensures
            ({
                let offset = mapping_offset(
                    old(self)@.caller_to_human,
                    source_timestamp,
                    next_destination_timestamp,
                );
                &&& destination_timestamp == source_timestamp.wrapping_add(offset)
                &&& final(self)@.caller_to_human.timestamp_offset == Some(offset)
                &&& final(self)@.caller_to_human.latest == next_latest(
                    old(self)@.caller_to_human.latest,
                    source_timestamp,
                    destination_timestamp,
                    duration,
                )
                &&& final(self)@ == (MediaPairView {
                    caller_to_human: final(self)@.caller_to_human,
                    ..old(self)@
                })
            }),
    {
        self.caller_to_human_dtmf.map_packet(source_timestamp, duration, next_destination_timestamp)
    }

    /// Maps a human telephone event onto the caller leg's clock.
    pub fn map_human_dtmf(&mut self, source_timestamp: u32, duration: u16, next_destination_timestamp: u32) -> (destination_timestamp: u32)
        ensures
            ({
                let offset = mapping_offset(
                    old(self)@.human_to_caller,
                    source_timestamp,
                    next_destination_timestamp,
                );
                &&& destination_timestamp == source_timestamp.wrapping_add(offset)
                &&& final(self)@.human_to_caller.timestamp_offset == Some(offset)
                &&& final(self)@.human_to_caller.latest == next_latest(
                    old(self)@.human_to_caller.latest,
                    source_timestamp,
                    destination_timestamp,
                    duration,
                )
                &&& final(self)@ == (MediaPairView {
                    human_to_caller: final(self)@.human_to_caller,
                    ..old(self)@
                })
            }),
    {
        self.human_to_caller_dtmf.map_packet(source_timestamp, duration, next_destination_timestamp)
    }
}

/// Once a direction's clock offset is fixed, every later packet keeps it,
/// so retransmissions of one event map to one destination timestamp.
pub proof fn law_relay_offset_is_stable(
    before: DtmfRelayClockView,
    source: u32,
    next_destination: u32,
    offset: u32,
)
    requires
        before.timestamp_offset == Some(offset),
    ensures
        mapping_offset(before, source, next_destination) == offset,
{
}

/// The first relayed packet lands exactly on the destination's next
/// timestamp.
pub proof fn law_first_event_aligns_with_destination(source: u32, next_destination: u32)
    ensures
        source.wrapping_add(
            mapping_offset(
                DtmfRelayClockView { timestamp_offset: None, latest: None },
                source,
                next_destination,
            ),
        ) == next_destination,
{
}

/// Timestamp order is strict: no timestamp is newer than itself, and of two
/// distinct timestamps less than half the space apart exactly one is newer.
pub proof fn law_timestamp_order_is_strict(a: u32, b: u32)
    ensures
        !is_newer(a, a),
        is_newer(a, b) ==> !is_newer(b, a),
        a != b && a.wrapping_sub(b) != 0x8000_0000 ==> is_newer(a, b) || is_newer(b, a),
{
}

} // verus!
