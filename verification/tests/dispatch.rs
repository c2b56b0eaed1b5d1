use call_platform::call_api::CallCommand;
use call_platform::call_core::{CallId, CallState};
use call_platform::dispatch::{
    allocate_local_tag, answer_plan, cancel_plan, check_final_replay, classify_request,
    fail_plan, invite_response_plan, response_plan, retransmission_lookup, timed_out_order,
    transaction_key, AnswerPlan, CancelPlan, DialogView, FailPlan, FinalInviteTimer,
    RequestRoute, ResponsePlan, ServerTransactionView, SipMethod, TransactionLookup,
    poll_plan, EngineAction, EngineState, EngineTransaction, PendingFinal, TransactionOutcome,
};
use call_platform::engine::{EngineError, SipHeader};
use call_platform::media_time::MediaTime;

fn server(key: &str, call: Option<u64>, is_invite: bool, cancellable: bool, destination: Option<u64>) -> ServerTransactionView {
    ServerTransactionView {
        key: key.to_string(),
        call: call.map(CallId::from_sequence),
        is_invite,
        cancellable,
        destination,
    }
}

fn headers(pairs: &[(&str, &str)]) -> Vec<SipHeader> {
    pairs
        .iter()
        .map(|(name, value)| SipHeader { name: name.to_string(), value: value.to_string() })
        .collect()
}

#[test]
fn requests_are_routed_as_the_engine_dispatches_them() {
    assert_eq!(classify_request(&SipMethod::Options, false), Ok(RequestRoute::Options));
    assert_eq!(classify_request(&SipMethod::Options, true), Ok(RequestRoute::InDialog));
    assert_eq!(classify_request(&SipMethod::Invite, false), Ok(RequestRoute::InitialInvite));
    assert_eq!(classify_request(&SipMethod::Invite, true), Ok(RequestRoute::InDialog));
    assert_eq!(classify_request(&SipMethod::Bye, true), Ok(RequestRoute::InDialog));
    assert_eq!(classify_request(&SipMethod::Cancel, false), Ok(RequestRoute::Cancel));
    assert_eq!(classify_request(&SipMethod::Ack, true), Ok(RequestRoute::Ack));
    assert_eq!(
        classify_request(&SipMethod::Other("REGISTER".to_string()), false),
        Err(EngineError::UnsupportedRequest)
    );
    assert_eq!(retransmission_lookup(&SipMethod::Ack, false), TransactionLookup::InviteOfAck);
    assert_eq!(retransmission_lookup(&SipMethod::Ack, true), TransactionLookup::Own);
    assert_eq!(retransmission_lookup(&SipMethod::Bye, false), TransactionLookup::Own);
    assert_eq!(transaction_key("z9hG4bK-1", &SipMethod::Cancel), "z9hG4bK-1:CANCEL");
    assert_eq!(
        transaction_key("b", &SipMethod::Other("INFO".to_string())),
        "b:INFO"
    );
}

#[test]
fn invite_responses_need_a_final_or_ringing_status_and_an_inbound_invite() {
    let transactions = vec![
        server("b1:OPTIONS", Some(1), false, false, Some(9)),
        server("b2:INVITE", Some(1), true, true, Some(7)),
        server("b3:INVITE", Some(2), true, true, None),
    ];
    let call = CallId::from_sequence(1);
    assert_eq!(
        invite_response_plan(&transactions, &call, 100),
        Err(EngineError::InvalidResponseStatus)
    );
    assert_eq!(
        invite_response_plan(&transactions, &call, 700),
        Err(EngineError::InvalidResponseStatus)
    );
    assert_eq!(
        invite_response_plan(&transactions, &call, 180),
        Ok(("b2:INVITE".to_string(), 7))
    );
    assert_eq!(
        invite_response_plan(&transactions, &CallId::from_sequence(2), 200),
        Err(EngineError::NotInboundInvite)
    );
    assert_eq!(
        invite_response_plan(&transactions, &CallId::from_sequence(3), 200),
        Err(EngineError::NotInboundInvite)
    );
}

#[test]
fn cancel_needs_a_pending_invite_of_the_same_dialog() {
    let transactions = vec![
        server("b1:INVITE", Some(1), true, true, Some(7)),
        server("b2:INVITE", Some(2), true, false, Some(7)),
        server("b3:INVITE", None, true, true, Some(7)),
    ];
    let dialogs = vec![DialogView {
        call: CallId::from_sequence(1),
        sip_call_id: "abc@example.com".to_string(),
    }];
    assert_eq!(
        cancel_plan(&transactions, &dialogs, "b1:INVITE", "abc@example.com"),
        CancelPlan::Cancel { call: CallId::from_sequence(1) }
    );
    assert_eq!(
        cancel_plan(&transactions, &dialogs, "b1:INVITE", "other@example.com"),
        CancelPlan::UnknownDialog
    );
    assert_eq!(
        cancel_plan(&transactions, &dialogs, "b2:INVITE", "abc@example.com"),
        CancelPlan::Reject481
    );
    assert_eq!(
        cancel_plan(&transactions, &dialogs, "b3:INVITE", "abc@example.com"),
        CancelPlan::UnknownDialog
    );
    assert_eq!(
        cancel_plan(&transactions, &dialogs, "b9:INVITE", "abc@example.com"),
        CancelPlan::Reject481
    );
}

#[test]
fn final_2xx_retransmissions_double_up_to_t2_until_acknowledged() {
    let t1 = MediaTime::from_millis(500);
    let t2 = MediaTime::from_millis(4_000);
    let mut timer = FinalInviteTimer::new(true, MediaTime::from_millis(0), t1);
    assert_eq!(timer.next_retransmit, Some(MediaTime::from_millis(500)));
    assert!(!timer.poll(MediaTime::from_millis(499), t2));
    assert!(timer.poll(MediaTime::from_millis(500), t2));
    assert_eq!(timer.retransmit_interval, MediaTime::from_millis(1_000));
    assert_eq!(timer.next_retransmit, Some(MediaTime::from_millis(1_500)));
    assert!(timer.poll(MediaTime::from_millis(1_500), t2));
    assert!(timer.poll(MediaTime::from_millis(3_500), t2));
    assert_eq!(timer.retransmit_interval, MediaTime::from_millis(4_000));
    assert!(timer.poll(MediaTime::from_millis(7_500), t2));
    assert_eq!(timer.retransmit_interval, MediaTime::from_millis(4_000));
    timer.acknowledge();
    assert!(!timer.poll(MediaTime::from_millis(100_000), t2));
    let reliable = FinalInviteTimer::new(false, MediaTime::from_millis(0), t1);
    assert_eq!(reliable.next_retransmit, None);
}

#[test]
fn timed_out_calls_fail_once_each_in_identifier_order() {
    let calls = vec![
        CallId::from_sequence(3),
        CallId::from_sequence(1),
        CallId::from_sequence(3),
        CallId::from_sequence(2),
        CallId::from_sequence(1),
    ];
    assert_eq!(
        timed_out_order(&calls),
        vec![CallId::from_sequence(1), CallId::from_sequence(2), CallId::from_sequence(3)]
    );
    assert!(timed_out_order(&[]).is_empty());
    assert_eq!(fail_plan(CallState::Ended), FailPlan::Nothing);
    assert_eq!(fail_plan(CallState::Failed), FailPlan::Nothing);
    assert_eq!(fail_plan(CallState::Ending), FailPlan::End);
    assert_eq!(fail_plan(CallState::Inviting), FailPlan::FailThenEnd);
}

#[test]
fn response_and_answer_plans_follow_the_status_class() {
    assert_eq!(
        response_plan(CallState::Inviting, 180),
        ResponsePlan {
            command: Some(CallCommand::Ringing),
            acknowledge: false,
            successful: false,
            end_call: false,
            keep_dialog: true
        }
    );
    assert_eq!(
        response_plan(CallState::Ringing, 200),
        ResponsePlan {
            command: Some(CallCommand::Answer),
            acknowledge: true,
            successful: true,
            end_call: false,
            keep_dialog: true
        }
    );
    assert_eq!(
        response_plan(CallState::Ringing, 486),
        ResponsePlan {
            command: Some(CallCommand::Fail),
            acknowledge: true,
            successful: false,
            end_call: true,
            keep_dialog: false
        }
    );
    assert_eq!(
        answer_plan(CallState::Inviting, 603),
        AnswerPlan {
            command: Some(CallCommand::Fail),
            is_final: true,
            end_call: true,
            remember_response: false
        }
    );
    assert_eq!(
        answer_plan(CallState::Inviting, 180),
        AnswerPlan {
            command: Some(CallCommand::Ringing),
            is_final: false,
            end_call: false,
            remember_response: true
        }
    );
}

#[test]
fn final_response_replays_must_match_the_recorded_one() {
    let recorded = headers(&[("Call-ID", "c1"), ("CSeq", "1 INVITE")]);
    assert_eq!(check_final_replay(200, true, &recorded, &recorded), Ok(()));
    assert_eq!(
        check_final_replay(180, true, &recorded, &recorded),
        Err(EngineError::UnknownTransaction)
    );
    assert_eq!(
        check_final_replay(486, true, &recorded, &recorded),
        Err(EngineError::UnknownTransaction)
    );
    assert_eq!(
        check_final_replay(200, true, &headers(&[("i", "c2"), ("CSeq", "1 INVITE")]), &recorded),
        Err(EngineError::UnknownTransaction)
    );
    assert_eq!(
        check_final_replay(200, true, &headers(&[("Call-ID", "c1")]), &recorded),
        Err(EngineError::MissingHeader("CSeq"))
    );
}

#[test]
fn local_tags_count_up_and_stop_at_the_limit() {
    let mut next = 41;
    assert_eq!(allocate_local_tag(&mut next).unwrap(), "rust-41");
    assert_eq!(next, 42);
    let mut last = u64::MAX;
    assert_eq!(allocate_local_tag(&mut last), Err(EngineError::InvalidConfig));
    assert_eq!(last, u64::MAX);
}

#[test]
fn media_time_parts_carry_excess_nanoseconds() {
    assert_eq!(MediaTime::from_parts(1, 1_500_000_000).as_nanos(), 2_500_000_000);
    assert_eq!(MediaTime::from_parts(0, 999).as_nanos(), 999);
}

fn outcome(key: &str, retransmit: bool, timed_out: bool, terminated: bool) -> TransactionOutcome {
    TransactionOutcome { key: key.to_string(), retransmit, timed_out, terminated }
}

#[test]
fn polling_retransmits_drops_terminated_and_fails_timed_out_calls_in_order() {
    let tx = |key: &str, call: Option<u64>, destination: Option<u64>| EngineTransaction {
        key: key.to_string(),
        call: call.map(CallId::from_sequence),
        destination,
    };
    let t1 = MediaTime::from_millis(500);
    let mut state = EngineState {
        transactions: vec![tx("a:INVITE", Some(3), Some(1)), tx("b:BYE", Some(2), None), tx("c:INVITE", Some(1), Some(4))],
        finals: vec![PendingFinal {
            key: "d:INVITE".to_string(),
            destination: 5,
            timer: FinalInviteTimer::new(true, MediaTime::from_millis(0), t1),
        }],
        t2: MediaTime::from_millis(4_000),
    };
    let actions = poll_plan(
        &mut state,
        MediaTime::from_millis(500),
        &[
            outcome("a:INVITE", true, true, true),
            outcome("b:BYE", true, false, false),
            outcome("c:INVITE", false, true, true),
            outcome("x:INVITE", true, true, true),
        ],
    );
    let described: Vec<String> = actions
        .iter()
        .map(|action| match action {
            EngineAction::Retransmit { key, destination } => format!("retransmit {key} {destination}"),
            EngineAction::RetransmitFinal { key, destination } => format!("final {key} {destination}"),
            EngineAction::FailCall { call } => format!("fail {}", call.as_str()),
        })
        .collect();
    assert_eq!(
        described,
        vec!["retransmit a:INVITE 1", "final d:INVITE 5", "fail call_1", "fail call_3"]
    );
    assert_eq!(state.transactions.len(), 1);
    assert_eq!(state.transactions[0].key, "b:BYE");
    assert_eq!(state.finals[0].timer.retransmit_interval, MediaTime::from_millis(1_000));
    assert_eq!(state.finals[0].timer.next_retransmit, Some(MediaTime::from_millis(1_500)));
}
