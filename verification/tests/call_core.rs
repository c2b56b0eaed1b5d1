use call_platform::call_core::{
    BridgeId, Call, CallId, CallState, CommandId, EventId, LegId, StreamId, TransitionError,
};

#[test]
fn identifiers_are_independent_from_sip_call_id() {
    let call = CallId::from_sequence(7);
    let leg = LegId::from_sequence(7);
    assert_eq!(call.as_str(), "call_7");
    assert_eq!(leg.as_str(), "leg_7");
    assert_ne!(call.to_string(), leg.to_string());
    assert!(CallId::new("sip-call-id").is_err());
}

#[test]
fn valid_lifecycle_and_impossible_transition() {
    let mut call = Call::new(CallId::from_sequence(1));
    for state in [
        CallState::Inviting,
        CallState::Ringing,
        CallState::Answered,
        CallState::Active,
        CallState::Ending,
        CallState::Ended,
    ] {
        call.transition(state).unwrap();
    }
    assert_eq!(call.state, CallState::Ended);
    assert!(call.transition(CallState::Active).is_err());
}

#[test]
fn identifier_validation_bounds_prefix_and_printable_bytes() {
    assert!(CallId::new("call_abc").is_ok());
    assert!(CallId::new("call_").is_ok());
    assert!(CallId::new("").is_err());
    assert!(CallId::new("call_ x").is_err());
    assert!(CallId::new("call_é").is_err());
    assert!(CallId::new(&format!("call_{}", "x".repeat(123))).is_ok());
    assert!(CallId::new(&format!("call_{}", "x".repeat(124))).is_err());
    assert!(StreamId::new("stream_1").is_ok());
    assert!(StreamId::new("leg_1").is_err());
    assert_eq!(EventId::from_sequence(0).as_str(), "evt_0");
    assert_eq!(BridgeId::from_sequence(12).as_str(), "bridge_12");
    assert_eq!(CommandId::from_sequence(18446744073709551615).as_str(), "cmd_18446744073709551615");
    assert_eq!(
        CallId::new(CallId::from_sequence(42).as_str()).unwrap(),
        CallId::from_sequence(42)
    );
}

#[test]
fn rejected_transition_reports_the_edge_and_keeps_state() {
    let mut call = Call::new(CallId::from_sequence(3));
    assert_eq!(
        call.transition(CallState::Active),
        Err(TransitionError::InvalidTransition {
            from: CallState::Created,
            to: CallState::Active
        })
    );
    assert_eq!(call.state, CallState::Created);
    call.transition(CallState::Failed).unwrap();
    call.transition(CallState::Ended).unwrap();
    for next in [CallState::Created, CallState::Ending, CallState::Ended] {
        assert!(call.transition(next).is_err());
    }
}
