use call_platform::call_core::CallId;
use call_platform::trace::{
    SpanId, TraceContext, TraceError, TraceFlags, TraceId, MAX_TRACE_OPERATION_BYTES,
};

fn call() -> CallId {
    CallId::from_sequence(7)
}

#[test]
fn traceparent_round_trips_and_preserves_call_correlation() {
    let context = TraceContext::from_traceparent(
        call(),
        "00-4bf92f3577b34da6a3ce929d0e0e4736-00f067aa0ba902b7-01",
    )
    .unwrap();
    assert_eq!(context.call_id().as_str(), "call_7");
    assert_eq!(
        context.traceparent(),
        "00-4bf92f3577b34da6a3ce929d0e0e4736-00f067aa0ba902b7-01"
    );

    let child = context.child(SpanId::from_sequence(8)).unwrap();
    assert_eq!(child.call_id(), context.call_id());
    assert_eq!(child.trace_id(), context.trace_id());
    assert_eq!(child.parent_span_id(), Some(context.span_id()));
    assert_ne!(child.traceparent(), context.traceparent());
}

#[test]
fn malformed_or_zero_trace_data_is_rejected() {
    assert!(matches!(
        TraceId::from_hex("00"),
        Err(TraceError::InvalidTraceId)
    ));
    assert!(matches!(
        SpanId::from_hex("0000000000000000"),
        Err(TraceError::ZeroIdentifier)
    ));
    assert!(matches!(
        TraceContext::from_traceparent(
            call(),
            "00-00000000000000000000000000000000-00f067aa0ba902b7-01"
        ),
        Err(TraceError::InvalidTraceparent)
    ));
    assert!(matches!(
        TraceContext::from_traceparent(
            call(),
            "01-4bf92f3577b34da6a3ce929d0e0e4736-00f067aa0ba902b7-01"
        ),
        Err(TraceError::InvalidTraceparent)
    ));
}

#[test]
fn span_operation_is_bounded_and_child_metadata_is_stable() {
    let context = TraceContext::from_sequence(call(), 1);
    let span = context.span("sip.receive").unwrap();
    assert_eq!(span.operation(), "sip.receive");
    assert_eq!(span.context().call_id(), context.call_id());
    assert!(matches!(
        context.span(""),
        Err(TraceError::InvalidOperation)
    ));
    assert!(matches!(
        context.span("x\n"),
        Err(TraceError::InvalidOperation)
    ));
    assert!(matches!(
        context.span(&"x".repeat(MAX_TRACE_OPERATION_BYTES + 1)),
        Err(TraceError::InvalidOperation)
    ));
    assert!(matches!(
        context.child(context.span_id().clone()),
        Err(TraceError::DuplicateSpan)
    ));
}

#[test]
fn sequence_identifiers_have_fixed_hex_spelling() {
    assert_eq!(
        TraceId::from_sequence(1).as_hex(),
        "0000000000000001fffffffffffffffe"
    );
    assert_eq!(SpanId::from_sequence(0).as_hex(), "0000000000000001");
    assert_eq!(SpanId::from_sequence(0x0102).as_hex(), "0000000000000102");
    let context = TraceContext::from_sequence(call(), 1);
    assert_eq!(
        context.traceparent(),
        "00-0000000000000001fffffffffffffffe-0000000000000001-01"
    );
}

#[test]
fn upper_case_hex_parses_and_prints_lower_case() {
    let id = TraceId::from_hex("4BF92F3577B34DA6A3CE929D0E0E4736").unwrap();
    assert_eq!(id.as_hex(), "4bf92f3577b34da6a3ce929d0e0e4736");
    assert_eq!(id.as_bytes()[0], 0x4b);
    assert!(matches!(
        SpanId::from_hex("00f067aa0ba902bg"),
        Err(TraceError::InvalidSpanId)
    ));
    assert!(matches!(
        TraceId::from_hex("00000000000000000000000000000000"),
        Err(TraceError::ZeroIdentifier)
    ));
    assert_eq!(TraceFlags::from_hex("Ff").unwrap().value(), 0xff);
    assert!(matches!(
        TraceFlags::from_hex("f"),
        Err(TraceError::InvalidTraceparent)
    ));
}

#[test]
fn traceparent_rejects_wrong_shape_and_bad_flags() {
    assert!(matches!(
        TraceContext::from_traceparent(
            call(),
            "00-4bf92f3577b34da6a3ce929d0e0e4736-00f067aa0ba902b7-0"
        ),
        Err(TraceError::InvalidTraceparent)
    ));
    assert!(matches!(
        TraceContext::from_traceparent(
            call(),
            "00_4bf92f3577b34da6a3ce929d0e0e4736-00f067aa0ba902b7-01"
        ),
        Err(TraceError::InvalidTraceparent)
    ));
    assert!(matches!(
        TraceContext::from_traceparent(
            call(),
            "00-4bf92f3577b34da6a3ce929d0e0e4736-00f067aa0ba902b7-zz"
        ),
        Err(TraceError::InvalidTraceparent)
    ));
    let context = TraceContext::from_traceparent(
        call(),
        "00-4bf92f3577b34da6a3ce929d0e0e4736-00f067aa0ba902b7-03",
    )
    .unwrap();
    assert_eq!(context.flags().value(), 3);
    assert!(context.parent_span_id().is_none());
}

#[test]
fn hex_identifiers_are_spelled_in_lower_case() {
    let upper = "0AF7651916CD43DD8448EB211C80319C";
    let trace = TraceId::from_hex(upper).unwrap();
    assert_eq!(trace.as_hex(), upper.to_ascii_lowercase());
    assert_eq!(TraceId::from_hex(&trace.as_hex()).unwrap(), trace);
    let span = SpanId::from_hex("B7AD6B7169203331").unwrap();
    assert_eq!(span.as_hex(), "b7ad6b7169203331");
}
