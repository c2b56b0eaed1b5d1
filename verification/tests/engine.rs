use call_platform::call_api::CallCommand;
use call_platform::call_core::CallState;
use call_platform::call_api::ApiError;
use call_platform::engine::{
    header_value, request_has_to_tag, required_header, response_call_command,
    response_for_request, transaction_branch, value_has_tag, build_ack, DialogRoute,
    EngineError, SipHeader,
};

fn headers(pairs: &[(&str, &str)]) -> Vec<SipHeader> {
    pairs
        .iter()
        .map(|(name, value)| SipHeader {
            name: name.to_string(),
            value: value.to_string(),
        })
        .collect()
}

#[test]
fn provisional_and_final_responses_drive_only_reachable_commands() {
    assert_eq!(
        response_call_command(CallState::Inviting, 183),
        Some(CallCommand::EarlyMedia)
    );
    assert_eq!(response_call_command(CallState::Early, 183), None);
    assert_eq!(
        response_call_command(CallState::Early, 180),
        Some(CallCommand::Ringing)
    );
    assert_eq!(response_call_command(CallState::Ringing, 180), None);
    assert_eq!(
        response_call_command(CallState::Ringing, 200),
        Some(CallCommand::Answer)
    );
    assert_eq!(
        response_call_command(CallState::Inviting, 299),
        Some(CallCommand::Answer)
    );
    assert_eq!(response_call_command(CallState::Active, 200), None);
    assert_eq!(
        response_call_command(CallState::Active, 486),
        Some(CallCommand::Fail)
    );
    assert_eq!(
        response_call_command(CallState::Inviting, 699),
        Some(CallCommand::Fail)
    );
    assert_eq!(response_call_command(CallState::Ending, 487), None);
    assert_eq!(response_call_command(CallState::Failed, 500), None);
    assert_eq!(response_call_command(CallState::Inviting, 100), None);
    assert_eq!(response_call_command(CallState::Inviting, 700), None);
}

#[test]
fn recognizes_only_non_empty_tag_parameters() {
    assert!(value_has_tag("<sip:bob@example.com>;tag=abc"));
    assert!(value_has_tag("Bob <sip:bob@example.com> ; TAG=x1 "));
    assert!(value_has_tag("<sip:a@b>;tag= x"));
    assert!(!value_has_tag("<sip:a@b>;tag =1"));
    assert!(value_has_tag("<sip:a@b>;lr;Tag=9"));
    assert!(!value_has_tag("<sip:bob@example.com>"));
    assert!(!value_has_tag("<sip:bob@example.com>;tag="));
    assert!(!value_has_tag("<sip:bob@example.com>;tag=   "));
    assert!(!value_has_tag("tag=first-element"));
    assert!(!value_has_tag("<sip:a@b>;tags=1"));
    assert!(!value_has_tag("<sip:a@b>;ta g=1"));
    assert!(!value_has_tag(""));
}

#[test]
fn finds_headers_by_full_or_compact_name_in_any_case() {
    let list = headers(&[
        ("Max-Forwards", "70"),
        ("v", "SIP/2.0/UDP a.example;branch=z9hG4bK-1"),
        ("VIA", "SIP/2.0/UDP b.example;branch=z9hG4bK-2"),
        ("f", "<sip:alice@example.com>;tag=1"),
        ("call-id", "abc@example.com"),
        ("Contact", "<sip:alice@192.0.2.1>"),
    ]);
    assert_eq!(header_value(&list, "Via"), Some("SIP/2.0/UDP a.example;branch=z9hG4bK-1"));
    assert_eq!(header_value(&list, "From"), Some("<sip:alice@example.com>;tag=1"));
    assert_eq!(header_value(&list, "Call-ID"), Some("abc@example.com"));
    assert_eq!(header_value(&list, "contact"), Some("<sip:alice@192.0.2.1>"));
    assert_eq!(header_value(&list, "To"), None);
    assert_eq!(header_value(&list, "c"), None);
    assert_eq!(required_header(&list, "CSeq"), Err(EngineError::MissingHeader("CSeq")));
    assert_eq!(required_header(&list, "Max-Forwards"), Ok("70"));
}

#[test]
fn extracts_the_branch_of_the_first_via_element() {
    let branch = |via: &str| transaction_branch(&headers(&[("Via", via)]));
    assert_eq!(
        branch("SIP/2.0/UDP host;rport;branch=z9hG4bK-abc").unwrap(),
        "z9hG4bK-abc"
    );
    assert_eq!(
        branch("SIP/2.0/UDP host ; BRANCH= z9hG4bK-x  , SIP/2.0/UDP other;branch=z9hG4bK-y").unwrap(),
        "z9hG4bK-x"
    );
    assert_eq!(
        branch("SIP/2.0/UDP host, SIP/2.0/UDP other;branch=z9hG4bK-y"),
        Err(EngineError::InvalidBranch)
    );
    assert_eq!(branch("SIP/2.0/UDP host;branch="), Err(EngineError::InvalidBranch));
    assert_eq!(branch("SIP/2.0/UDP host;branch =x"), Err(EngineError::InvalidBranch));
    assert_eq!(branch("SIP/2.0/UDP host;branch=a b"), Err(EngineError::InvalidBranch));
    assert_eq!(branch("SIP/2.0/UDP host;branch=caf\u{e9}"), Err(EngineError::InvalidBranch));
    assert_eq!(
        branch(&format!("SIP/2.0/UDP host;branch={}", "z".repeat(257))),
        Err(EngineError::InvalidBranch)
    );
    assert_eq!(
        branch(&format!("SIP/2.0/UDP host;branch={}", "z".repeat(256))).unwrap().len(),
        256
    );
    assert_eq!(
        transaction_branch(&headers(&[("To", "<sip:b@example.com>")])),
        Err(EngineError::MissingHeader("Via"))
    );
}

#[test]
fn call_api_errors_convert_into_engine_errors() {
    assert_eq!(
        EngineError::from(ApiError::UnknownCall),
        EngineError::CallApi(ApiError::UnknownCall)
    );
}

#[test]
fn responses_echo_vias_and_dialog_headers_and_tag_the_callee() {
    let request = headers(&[
        ("Via", "SIP/2.0/UDP a.example;branch=z9hG4bK-1"),
        ("Max-Forwards", "70"),
        ("v", "SIP/2.0/UDP b.example;branch=z9hG4bK-2"),
        ("From", "<sip:alice@example.com>;tag=a1"),
        ("t", "<sip:bob@example.com>"),
        ("i", "call-1@example.com"),
        ("CSeq", "1 INVITE"),
    ]);
    let response = response_for_request(&request, 180, "Ringing", Some("b2"), vec![1, 2]).unwrap();
    assert_eq!(response.version, "SIP/2.0");
    assert_eq!(response.status_code, 180);
    assert_eq!(response.reason, "Ringing");
    assert_eq!(response.body, vec![1, 2]);
    let fields: Vec<(String, String)> = response
        .headers
        .iter()
        .map(|header| (header.name.clone(), header.value.clone()))
        .collect();
    let expected: Vec<(String, String)> = [
        ("Via", "SIP/2.0/UDP a.example;branch=z9hG4bK-1"),
        ("Via", "SIP/2.0/UDP b.example;branch=z9hG4bK-2"),
        ("From", "<sip:alice@example.com>;tag=a1"),
        ("To", "<sip:bob@example.com>;tag=b2"),
        ("Call-ID", "call-1@example.com"),
        ("CSeq", "1 INVITE"),
    ]
    .iter()
    .map(|(name, value)| (name.to_string(), value.to_string()))
    .collect();
    assert_eq!(fields, expected);
    assert!(value_has_tag(&response.headers[3].value));
    assert!(!request_has_to_tag(&request));

    let tagged = headers(&[
        ("From", "<sip:alice@example.com>;tag=a1"),
        ("To", "<sip:bob@example.com>;tag=b1"),
        ("Call-ID", "call-1@example.com"),
        ("CSeq", "2 BYE"),
    ]);
    assert!(request_has_to_tag(&tagged));
    let ok = response_for_request(&tagged, 200, "OK", Some("b2"), Vec::new()).unwrap();
    assert_eq!(ok.headers[1].value, "<sip:bob@example.com>;tag=b1");
    assert_eq!(ok.headers.len(), 4);
}

#[test]
fn responses_name_the_first_missing_dialog_header() {
    let missing_call_id = headers(&[
        ("From", "<sip:alice@example.com>;tag=a1"),
        ("To", "<sip:bob@example.com>"),
        ("CSeq", "1 INVITE"),
    ]);
    assert!(matches!(
        response_for_request(&missing_call_id, 200, "OK", None, Vec::new()),
        Err(EngineError::MissingHeader("Call-ID"))
    ));
    assert!(matches!(
        response_for_request(&headers(&[]), 200, "OK", None, Vec::new()),
        Err(EngineError::MissingHeader("From"))
    ));
}

fn fields(headers: &[SipHeader]) -> Vec<(String, String)> {
    headers
        .iter()
        .map(|header| (header.name.clone(), header.value.clone()))
        .collect()
}

fn pairs(list: &[(&str, &str)]) -> Vec<(String, String)> {
    list.iter()
        .map(|(name, value)| (name.to_string(), value.to_string()))
        .collect()
}

#[test]
fn success_ack_takes_a_new_branch_and_the_dialog_target() {
    let invite = headers(&[
        ("Via", " SIP/2.0/UDP host.example:5060 ;branch=z9hG4bK-inv;rport, SIP/2.0/UDP proxy"),
        ("From", "<sip:alice@example.com>;tag=a1"),
        ("To", "<sip:bob@example.com>"),
        ("Call-ID", "call-1@example.com"),
        ("CSeq", "  41 INVITE"),
    ]);
    let ok = headers(&[("To", "<sip:bob@example.com>;tag=b9")]);
    let dialog = DialogRoute {
        remote_target: "sip:bob@192.0.2.7".to_string(),
        route_set: vec!["sip:p1.example;lr".to_string(), "sip:p2.example;lr".to_string()],
    };
    let mut next_branch = 7;
    let ack = build_ack(&mut next_branch, "sip:bob@example.com", &invite, &ok, &dialog, true).unwrap();
    assert_eq!(next_branch, 8);
    assert_eq!(transaction_branch(&ack.headers).unwrap(), "z9hG4bKrust-7");
    assert_eq!(ack.request_uri, "sip:bob@192.0.2.7");
    assert_eq!(
        fields(&ack.headers),
        pairs(&[
            ("Via", "SIP/2.0/UDP host.example:5060;branch=z9hG4bKrust-7"),
            ("Max-Forwards", "70"),
            ("From", "<sip:alice@example.com>;tag=a1"),
            ("To", "<sip:bob@example.com>;tag=b9"),
            ("Call-ID", "call-1@example.com"),
            ("CSeq", "41 ACK"),
            ("Route", "<sip:p1.example;lr>"),
            ("Route", "<sip:p2.example;lr>"),
        ])
    );
}

#[test]
fn failure_ack_reuses_the_invite_via_and_uri() {
    let invite = headers(&[
        ("v", "SIP/2.0/UDP host.example;branch=z9hG4bK-inv"),
        ("f", "<sip:alice@example.com>;tag=a1"),
        ("i", "call-2@example.com"),
        ("c", "3 INVITE"),
    ]);
    let busy = headers(&[("t", "<sip:bob@example.com>;tag=b1")]);
    let dialog = DialogRoute {
        remote_target: "sip:unused@example.com".to_string(),
        route_set: Vec::new(),
    };
    let mut next_branch = 1;
    let ack = build_ack(&mut next_branch, "sip:bob@example.com", &invite, &busy, &dialog, false).unwrap();
    assert_eq!(next_branch, 1);
    assert_eq!(ack.request_uri, "sip:bob@example.com");
    assert_eq!(
        fields(&ack.headers),
        pairs(&[
            ("Via", "SIP/2.0/UDP host.example;branch=z9hG4bK-inv"),
            ("Max-Forwards", "70"),
            ("From", "<sip:alice@example.com>;tag=a1"),
            ("To", "<sip:bob@example.com>;tag=b1"),
            ("Call-ID", "call-2@example.com"),
            ("CSeq", "3 ACK"),
        ])
    );
}

#[test]
fn ack_faults_follow_assembly_order_and_keep_the_branch_counter() {
    let dialog = DialogRoute {
        remote_target: "sip:bob@192.0.2.7".to_string(),
        route_set: Vec::new(),
    };
    let complete = [
        ("Via", "SIP/2.0/UDP host.example;branch=z9hG4bK-inv"),
        ("From", "<sip:alice@example.com>;tag=a1"),
        ("Call-ID", "call-3@example.com"),
        ("CSeq", "5 INVITE"),
    ];
    let to = headers(&[("To", "<sip:bob@example.com>;tag=b1")]);
    let mut next_branch = u64::MAX;
    assert!(matches!(
        build_ack(&mut next_branch, "sip:b", &headers(&complete[..3]), &to, &dialog, true),
        Err(EngineError::MissingHeader("CSeq"))
    ));
    assert!(matches!(
        build_ack(&mut next_branch, "sip:b", &headers(&[("CSeq", "   ")]), &to, &dialog, true),
        Err(EngineError::MissingHeader("CSeq"))
    ));
    assert!(matches!(
        build_ack(&mut next_branch, "sip:b", &headers(&[("CSeq", "5 INVITE")]), &to, &dialog, true),
        Err(EngineError::MissingHeader("Via"))
    ));
    assert_eq!(
        build_ack(&mut next_branch, "sip:b", &headers(&[("CSeq", "5 INVITE"), ("Via", " , x")]), &to, &dialog, true).err(),
        Some(EngineError::InvalidBranch)
    );
    assert!(matches!(
        build_ack(&mut next_branch, "sip:b", &headers(&complete), &headers(&[]), &dialog, true),
        Err(EngineError::MissingHeader("To"))
    ));
    assert_eq!(
        build_ack(&mut next_branch, "sip:b", &headers(&complete), &to, &dialog, true).err(),
        Some(EngineError::InvalidConfig)
    );
    assert_eq!(next_branch, u64::MAX);
    assert!(build_ack(&mut next_branch, "sip:b", &headers(&complete), &to, &dialog, false).is_ok());
}
