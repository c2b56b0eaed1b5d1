//! Keeps the caller/human bridge registry in step with call lifecycle events.
//!
//! When a human second leg is answered its bridge switches to the human; when
//! the leg fails or hangs up the bridge falls back to the retained AI stream.
//! The sockets, engines and media runtimes that produce those events live
//! outside this module.

use vstd::prelude::*;

use crate::bridge::{
    event_text, lemma_unique_index, registry_wf, BridgeError, BridgeEvent, BridgeEventKind,
    BridgeRegistry, BridgeRegistryConfig, BridgeRegistryView, BridgeSnapshot, BridgeState,
};
use crate::call_core::{BridgeId, CallEventKind, CallId, LifecycleEvent};

verus! {

/// The call of a bridge's human leg: the pending leg while it connects,
/// otherwise the active one.
pub open spec fn human_call(bridge: BridgeSnapshot) -> Option<Seq<char>> {
    match bridge.pending_human {
        Some(human) => Some(human.call_id@),
        None => match bridge.active_human {
            Some(human) => Some(human.call_id@),
            None => None,
        },
    }
}

pub open spec fn is_human_of(bridge: BridgeSnapshot, call: Seq<char>) -> bool {
    human_call(bridge) == Some(call)
}

/// `i` is the first retained bridge whose human leg is `call`.
pub open spec fn first_human_bridge(bridges: Seq<BridgeSnapshot>, call: Seq<char>, i: int) -> bool {
    &&& 0 <= i < bridges.len()
    &&& is_human_of(bridges[i], call)
    &&& forall|j: int| 0 <= j < i ==> !is_human_of(#[trigger] bridges[j], call)
}

/// The position of the first bridge whose human leg is `call`, if any.
pub open spec fn human_bridge_index(bridges: Seq<BridgeSnapshot>, call: Seq<char>) -> Option<int> {
    if exists|i: int| first_human_bridge(bridges, call, i) {
        Some(choose|i: int| first_human_bridge(bridges, call, i))
    } else {
        None
    }
}

/// What a bridge event carries, by value.
pub open spec fn event_view(event: BridgeEvent) -> (Seq<char>, Seq<char>, BridgeEventKind) {
    (event.event_id@, event.bridge_id@, event.kind)
}

/// A registry as the routing rules see it: bounds, retained bridges, pending
/// events by value, and the next generated sequences.
pub struct RoutingView {
    pub config: BridgeRegistryConfig,
    pub bridges: Seq<BridgeSnapshot>,
    pub events: Seq<(Seq<char>, Seq<char>, BridgeEventKind)>,
    pub next_bridge_sequence: u64,
    pub next_event_sequence: u64,
}

pub open spec fn routing(view: BridgeRegistryView) -> RoutingView {
    RoutingView {
        config: view.config,
        bridges: view.bridges,
        events: view.events.map_values(|event: BridgeEvent| event_view(event)),
        next_bridge_sequence: view.next_bridge_sequence,
        next_event_sequence: view.next_event_sequence,
    }
}

/// Replaces bridge `index` by `updated` and queues its event of `kind`, or
/// reports why the event queue cannot take another event.
pub open spec fn routed_transition(
    view: RoutingView,
    index: int,
    updated: BridgeSnapshot,
    kind: BridgeEventKind,
) -> Result<RoutingView, BridgeError> {
    if view.events.len() >= view.config.max_pending_events {
        Err(BridgeError::EventQueueFull)
    } else if view.next_event_sequence == u64::MAX {
        Err(BridgeError::IdentifierExhausted)
    } else {
        Ok(
            RoutingView {
                bridges: view.bridges.update(index, updated),
                events: view.events.push(
                    (event_text(view.next_event_sequence), view.bridges[index].id@, kind),
                ),
                next_event_sequence: (view.next_event_sequence + 1) as u64,
                ..view
            },
        )
    }
}

/// Whether a call event ends the human leg it belongs to.
pub open spec fn ends_human_leg(kind: CallEventKind) -> bool {
    kind == CallEventKind::Failed || kind == CallEventKind::Hangup
}

/// How one call lifecycle event moves the bridges: an answered connecting
/// human leg becomes the active destination; a failed or hung-up human leg,
/// connecting or active, falls back to AI; anything else changes nothing.
pub open spec fn lifecycle_step(view: RoutingView, event: LifecycleEvent) -> Result<
    RoutingView,
    BridgeError,
> {
    match human_bridge_index(view.bridges, event.call_id@) {
        None => Ok(view),
        Some(index) => {
            let bridge = view.bridges[index];
            if event.kind == CallEventKind::Answered && bridge.state
                == BridgeState::ConnectingHuman {
                routed_transition(
                    view,
                    index,
                    BridgeSnapshot {
                        state: BridgeState::HumanActive,
                        active_human: bridge.pending_human,
                        pending_human: None,
                        ..bridge
                    },
                    BridgeEventKind::HumanConnected,
                )
            } else if ends_human_leg(event.kind) && (bridge.state == BridgeState::ConnectingHuman
                || bridge.state == BridgeState::HumanActive) {
                routed_transition(
                    view,
                    index,
                    BridgeSnapshot {
                        state: BridgeState::AiActive,
                        active_human: None,
                        pending_human: None,
                        ..bridge
                    },
                    BridgeEventKind::HumanFailed,
                )
            } else {
                Ok(view)
            }
        },
    }
}

/// Applies the events in order and stops at the first rejected transition,
/// keeping what the earlier events did.
pub open spec fn synchronize(view: RoutingView, events: Seq<LifecycleEvent>) -> (
    RoutingView,
    Result<(), BridgeError>,
)
    decreases events.len(),
{
    if events.len() == 0 {
        (view, Ok(()))
    } else {
        match lifecycle_step(view, events[0]) {
            Ok(next) => synchronize(next, events.drop_first()),
            Err(error) => (view, Err(error)),
        }
    }
}

/// A failed or hung-up human leg, connecting or active, returns its bridge to
/// the retained AI stream: the caller's call, leg and AI stream stay, no human
/// leg remains, the other bridges are untouched, and a `HumanFailed` event is
/// queued.
pub proof fn law_human_failure_restores_ai(view: RoutingView, event: LifecycleEvent, i: int)
    requires
        first_human_bridge(view.bridges, event.call_id@, i),
        ends_human_leg(event.kind),
        view.bridges[i].state == BridgeState::ConnectingHuman || view.bridges[i].state
            == BridgeState::HumanActive,
        view.events.len() < view.config.max_pending_events,
        view.next_event_sequence < u64::MAX,
    ensures
        lifecycle_step(view, event) matches Ok(after) && {
            &&& after.bridges.len() == view.bridges.len()
            &&& after.bridges[i].state == BridgeState::AiActive
            &&& after.bridges[i].active_human is None
            &&& after.bridges[i].pending_human is None
            &&& after.bridges[i].id == view.bridges[i].id
            &&& after.bridges[i].caller_call_id == view.bridges[i].caller_call_id
            &&& after.bridges[i].caller_leg_id == view.bridges[i].caller_leg_id
            &&& after.bridges[i].ai_stream_id == view.bridges[i].ai_stream_id
            &&& forall|j: int| 0 <= j < view.bridges.len() && j != i ==> after.bridges[j]
                == view.bridges[j]
            &&& after.events.last().2 == BridgeEventKind::HumanFailed
        },
{
    lemma_first_human_unique(view.bridges, event.call_id@, i);
}

/// An answered human leg that is still connecting becomes the bridge's active
/// destination, keeping the caller and the AI stream for a later fall-back.
pub proof fn law_answered_human_becomes_active(view: RoutingView, event: LifecycleEvent, i: int)
    requires
        first_human_bridge(view.bridges, event.call_id@, i),
        event.kind == CallEventKind::Answered,
        view.bridges[i].state == BridgeState::ConnectingHuman,
        view.events.len() < view.config.max_pending_events,
        view.next_event_sequence < u64::MAX,
    ensures
        lifecycle_step(view, event) matches Ok(after) && {
            &&& after.bridges[i].state == BridgeState::HumanActive
            &&& after.bridges[i].active_human == view.bridges[i].pending_human
            &&& after.bridges[i].pending_human is None
            &&& after.bridges[i].caller_call_id == view.bridges[i].caller_call_id
            &&& after.bridges[i].ai_stream_id == view.bridges[i].ai_stream_id
            &&& forall|j: int| 0 <= j < view.bridges.len() && j != i ==> after.bridges[j]
                == view.bridges[j]
            &&& after.events.last().2 == BridgeEventKind::HumanConnected
        },
{
    lemma_first_human_unique(view.bridges, event.call_id@, i);
}

/// Events of calls that are no bridge's human leg leave the bridges as they
/// were.
pub proof fn law_unrelated_events_change_nothing(view: RoutingView, event: LifecycleEvent)
    requires
        forall|j: int| 0 <= j < view.bridges.len() ==> !is_human_of(#[trigger] view.bridges[j], event.call_id@),
    ensures
        lifecycle_step(view, event) == Ok::<RoutingView, BridgeError>(view),
{
    assert(!exists|i: int| first_human_bridge(view.bridges, event.call_id@, i));
}

fn human_leg_matches(bridge: &BridgeSnapshot, call_id: &CallId) -> (matches: bool)
    ensures
        matches == is_human_of(*bridge, call_id@),
{
    match &bridge.pending_human {
        Some(human) => human.call_id.same_as(call_id),
        None => match &bridge.active_human {
            Some(human) => human.call_id.same_as(call_id),
            None => false,
        },
    }
}

proof fn lemma_first_human_unique(bridges: Seq<BridgeSnapshot>, call: Seq<char>, i: int)
    requires
        first_human_bridge(bridges, call, i),
    ensures
        human_bridge_index(bridges, call) == Some(i),
{
    let k = choose|k: int| first_human_bridge(bridges, call, k);
    assert(first_human_bridge(bridges, call, k));
    if k < i {
        assert(!is_human_of(bridges[k], call));
    } else if i < k {
        assert(!is_human_of(bridges[i], call));
    }
}

/// Finds the bridge whose pending or active human leg is `call_id`, with its
/// routing state.
pub fn human_bridge_for_call(bridges: &BridgeRegistry, call_id: &CallId) -> (result: Result<
    Option<(BridgeId, BridgeState)>,
    BridgeError,
>)
    ensures
        result matches Ok(found) && match found {
            Some((id, state)) => human_bridge_index(bridges@.bridges, call_id@) matches Some(i)
                && id == bridges@.bridges[i].id && state == bridges@.bridges[i].state,
            None => human_bridge_index(bridges@.bridges, call_id@) is None,
        },
{
    proof {
        use_type_invariant(bridges);
    }
    let listed = match bridges.list(bridges.config().max_bridges) {
        Ok(listed) => listed,
        Err(error) => return Err(error),
    };
    proof {
        assert(bridges@.bridges.take(bridges@.bridges.len() as int) =~= bridges@.bridges);
    }
    let ghost all = bridges@.bridges;
    let mut index: usize = 0;
    while index < listed.len()
        invariant
            listed@ == all,
            all == bridges@.bridges,
            index <= listed@.len(),
            forall|j: int| 0 <= j < index ==> !is_human_of(#[trigger] all[j], call_id@),
        decreases listed.len() - index,
    {
        if human_leg_matches(&listed[index], call_id) {
            proof {
                assert(first_human_bridge(all, call_id@, index as int));
                lemma_first_human_unique(all, call_id@, index as int);
            }
            return Ok(Some((listed[index].id.clone(), listed[index].state)));
        }
        index = index + 1;
    }
    proof {
        assert(!exists|i: int| first_human_bridge(all, call_id@, i));
    }
    Ok(None)
}

proof fn lemma_events_pushed(before: Seq<BridgeEvent>, event: BridgeEvent)
    ensures
        before.push(event).map_values(|e: BridgeEvent| event_view(e)) == before.map_values(
            |e: BridgeEvent| event_view(e),
        ).push(event_view(event)),
{
    assert(before.push(event).map_values(|e: BridgeEvent| event_view(e)) =~= before.map_values(
        |e: BridgeEvent| event_view(e),
    ).push(event_view(event)));
}

/// Moves every bridge whose human leg an event concerns: an answered
/// connecting leg becomes the active destination, and a failed or hung-up
/// human leg falls back to AI. Stops at the first transition the registry
/// rejects and reports it, keeping what earlier events did.
pub fn synchronize_bridge_lifecycle(bridges: &mut BridgeRegistry, events: &[LifecycleEvent]) -> (result:
    Result<(), BridgeError>)
    ensures
        registry_wf(final(bridges)@),
        synchronize(routing(old(bridges)@), events@) == (routing(final(bridges)@), result),
{
    proof {
        use_type_invariant(&*bridges);
    }
    let ghost start = routing(bridges@);
    proof {
        assert(events@.skip(0) =~= events@);
    }
    let mut index: usize = 0;
    while index < events.len()
        invariant
            index <= events@.len(),
            start == routing(old(bridges)@),
            registry_wf(bridges@),
            synchronize(start, events@) == synchronize(routing(bridges@), events@.skip(index as int)),
        decreases events.len() - index,
    {
        let ghost before = bridges@;
        let ghost rest = events@.skip(index as int);
        proof {
            assert(rest[0] == events@[index as int]);
            assert(rest.drop_first() =~= events@.skip(index + 1));
        }
        let event = &events[index];
        let (bridge_id, state) = match human_bridge_for_call(bridges, &event.call_id) {
            Ok(Some(found)) => found,
            Ok(None) => {
                index = index + 1;
                continue;
            },
            Err(error) => return Err(error),
        };
        let ghost position = human_bridge_index(before.bridges, event.call_id@)->Some_0;
        proof {
            lemma_unique_index(before.bridges, bridge_id@, position);
        }
        if event.kind == CallEventKind::Answered && state == BridgeState::ConnectingHuman {
            match bridges.complete_human(&bridge_id) {
                Ok(emitted) => {
                    proof {
                        lemma_events_pushed(before.events, emitted);
                        assert(routing(bridges@) == lifecycle_step(routing(before), *event)->Ok_0);
                    }
                },
                Err(error) => {
                    proof {
                        assert(lifecycle_step(routing(before), *event) == Err::<RoutingView, BridgeError>(error));
                        assert(bridges@ == before);
                        assert(synchronize(routing(before), rest) == (routing(before), Err::<(), BridgeError>(error)));
                    }
                    return Err(error);
                },
            }
        } else if (event.kind == CallEventKind::Failed || event.kind == CallEventKind::Hangup) && (
        state == BridgeState::ConnectingHuman || state == BridgeState::HumanActive) {
            match bridges.fail_human(&bridge_id) {
                Ok(emitted) => {
                    proof {
                        lemma_events_pushed(before.events, emitted);
                        assert(routing(bridges@) == lifecycle_step(routing(before), *event)->Ok_0);
                    }
                },
                Err(error) => {
                    proof {
                        assert(lifecycle_step(routing(before), *event) == Err::<RoutingView, BridgeError>(error));
                        assert(bridges@ == before);
                        assert(synchronize(routing(before), rest) == (routing(before), Err::<(), BridgeError>(error)));
                    }
                    return Err(error);
                },
            }
        }
        index = index + 1;
    }
    proof {
        assert(events@.skip(index as int).len() == 0);
    }
    Ok(())
}

} // verus!
