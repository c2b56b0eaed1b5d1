use call_platform::call_api::{
    ApiError, AuditOperation, AuditOutcome, AuthenticatedPrincipal, CallCommand, CallMetrics,
    CallRegistry, CallRegistryConfig, ControlPermission, DialogId,
};
use call_platform::call_core::{CallEventKind, CallId, CallState, CommandId, LifecycleEvent};
use call_platform::negotiation::{Direction, MediaSection, SdpCodec};

fn principal(permissions: &[ControlPermission]) -> AuthenticatedPrincipal {
    AuthenticatedPrincipal::from_verified_claims("voice-app", permissions).unwrap()
}

#[test]
fn verified_principal_is_bounded_and_does_not_retain_credentials() {
    let principal = AuthenticatedPrincipal::from_verified_claims(
        "voice-app",
        &[ControlPermission::ReadCalls, ControlPermission::ReadCalls],
    )
    .unwrap();
    assert_eq!(principal.id(), "voice-app");
    assert!(principal.has_permission(ControlPermission::ReadCalls));
    assert!(!principal.has_permission(ControlPermission::Admin));
    assert!(!format!("{principal:?}").contains("password"));

    assert_eq!(
        AuthenticatedPrincipal::from_verified_claims("", &[]),
        Err(ApiError::InvalidPrincipal)
    );
    assert_eq!(
        AuthenticatedPrincipal::from_verified_claims("has whitespace", &[]),
        Err(ApiError::InvalidPrincipal)
    );
    assert_eq!(
        AuthenticatedPrincipal::from_verified_claims(&"x".repeat(129), &[]),
        Err(ApiError::InvalidPrincipal)
    );
    assert_eq!(ControlPermission::HangupCalls.code(), "calls:hangup");
    assert_eq!(ControlPermission::Admin.code(), "calls:admin");
}

#[test]
fn authorization_precedes_call_lookup_and_state_mutation() {
    let mut registry = CallRegistry::new(CallRegistryConfig::default()).unwrap();
    let id = registry.create().unwrap();
    registry.drain_events(8).unwrap();
    let read_only = principal(&[ControlPermission::ReadCalls]);
    let no_access = principal(&[]);

    assert_eq!(
        registry.apply_authorized(&read_only, &id, CallCommand::Hangup),
        Err(ApiError::PermissionDenied {
            command: CallCommand::Hangup,
            permission: ControlPermission::HangupCalls,
        })
    );
    assert_eq!(
        registry.apply_authorized(&read_only, &CallId::from_sequence(99), CallCommand::Hangup),
        Err(ApiError::PermissionDenied {
            command: CallCommand::Hangup,
            permission: ControlPermission::HangupCalls,
        })
    );
    assert_eq!(registry.snapshot(&id).unwrap().state, CallState::Created);
    assert_eq!(registry.pending_events(), 0);
    assert_eq!(
        registry.snapshot_authorized(&no_access, &id),
        Err(ApiError::ReadPermissionDenied)
    );
    assert_eq!(
        registry.snapshot_authorized(&no_access, &CallId::from_sequence(99)),
        Err(ApiError::ReadPermissionDenied)
    );
    assert_eq!(
        registry.list_authorized(&no_access, 1),
        Err(ApiError::ReadPermissionDenied)
    );
    assert_eq!(
        registry.replay_events_after_authorized(&no_access, None, 8),
        Err(ApiError::ReadPermissionDenied)
    );
    assert_eq!(
        registry.snapshot_authorized(&read_only, &id).unwrap(),
        registry.snapshot(&id).unwrap()
    );
    assert_eq!(registry.list_authorized(&read_only, 1).unwrap().len(), 1);
    assert_eq!(
        registry
            .replay_events_after_authorized(&read_only, None, 8)
            .unwrap(),
        registry.replay_events_after(None, 8).unwrap()
    );
}

#[test]
fn authorized_idempotent_retries_are_replayable_but_unauthorized_retries_are_not() {
    let mut registry = CallRegistry::new(CallRegistryConfig::default()).unwrap();
    let id = registry.create().unwrap();
    registry.drain_events(8).unwrap();
    let originate = principal(&[ControlPermission::OriginateCalls]);
    let read_only = principal(&[ControlPermission::ReadCalls]);
    let command_id = CommandId::from_sequence(7);

    let first = registry
        .apply_idempotent_authorized(
            &originate,
            &id,
            CallCommand::InviteReceived,
            command_id.clone(),
        )
        .unwrap();
    assert!(!first.replayed);
    assert_eq!(registry.pending_events(), 1);
    assert_eq!(
        registry.apply_idempotent_authorized(
            &read_only,
            &id,
            CallCommand::InviteReceived,
            command_id.clone(),
        ),
        Err(ApiError::PermissionDenied {
            command: CallCommand::InviteReceived,
            permission: ControlPermission::OriginateCalls,
        })
    );
    let retry = registry
        .apply_idempotent_authorized(&originate, &id, CallCommand::InviteReceived, command_id)
        .unwrap();
    assert!(retry.replayed);
    assert_eq!(retry.event, first.event);
    assert_eq!(registry.pending_events(), 1);
    assert_eq!(registry.snapshot(&id).unwrap().state, CallState::Inviting);
}

#[test]
fn authorized_operations_emit_bounded_credential_free_audit_records() {
    let mut registry = CallRegistry::new(CallRegistryConfig {
        max_calls: 1,
        max_pending_events: 2,
        max_command_keys: 2,
    })
    .unwrap();
    let id = registry.create().unwrap();
    registry.drain_events(2).unwrap();
    let originate = principal(&[ControlPermission::OriginateCalls]);
    let read_only = principal(&[ControlPermission::ReadCalls]);
    let command_id = CommandId::from_sequence(1);

    registry
        .apply_idempotent_authorized(
            &originate,
            &id,
            CallCommand::InviteReceived,
            command_id.clone(),
        )
        .unwrap();
    let retry = registry
        .apply_idempotent_authorized(&originate, &id, CallCommand::InviteReceived, command_id)
        .unwrap();
    assert!(retry.replayed);
    assert_eq!(registry.metrics().pending_audit_records, 2);

    assert_eq!(
        registry.apply_authorized(&read_only, &id, CallCommand::Hangup),
        Err(ApiError::PermissionDenied {
            command: CallCommand::Hangup,
            permission: ControlPermission::HangupCalls,
        })
    );
    let records = registry.drain_audit_records(8).unwrap();
    assert_eq!(records.len(), 2);
    assert_eq!(records[0].sequence + 1, records[1].sequence);
    assert_eq!(records[0].principal_id, "voice-app");
    assert_eq!(records[0].call_id, Some(id.clone()));
    assert_eq!(
        records[0].operation,
        AuditOperation::ApplyCommand {
            command: CallCommand::InviteReceived,
            idempotent: true,
        }
    );
    assert_eq!(records[0].outcome, AuditOutcome::Replayed);
    assert_eq!(
        records[1].outcome,
        AuditOutcome::Rejected("permission_denied")
    );
    assert!(!format!("{records:?}").contains("password"));
    assert_eq!(registry.drain_audit_records(0), Err(ApiError::InvalidLimit));
}

#[test]
fn authorized_terminal_reclamation_is_audited_after_resource_removal() {
    let mut registry = CallRegistry::new(CallRegistryConfig::default()).unwrap();
    let id = registry.create().unwrap();
    registry.drain_events(8).unwrap();
    let admin = principal(&[ControlPermission::Admin]);
    registry.apply(&id, CallCommand::InviteReceived).unwrap();
    registry.apply(&id, CallCommand::Hangup).unwrap();
    registry.apply(&id, CallCommand::End).unwrap();

    registry.remove_terminal_authorized(&admin, &id).unwrap();
    let record = registry.drain_audit_records(1).unwrap().pop().unwrap();
    assert_eq!(record.call_id, Some(id));
    assert_eq!(record.operation, AuditOperation::ReclaimTerminal);
    assert_eq!(record.outcome, AuditOutcome::Succeeded);
    assert_eq!(registry.pending_audit_records(), 0);
}

#[test]
fn admin_permission_covers_commands_and_terminal_reclamation() {
    let mut registry = CallRegistry::new(CallRegistryConfig::default()).unwrap();
    let id = registry.create().unwrap();
    registry.drain_events(8).unwrap();
    let admin = principal(&[ControlPermission::Admin]);
    registry
        .apply_authorized(&admin, &id, CallCommand::InviteReceived)
        .unwrap();
    registry
        .apply_authorized(&admin, &id, CallCommand::Hangup)
        .unwrap();
    registry
        .apply_authorized(&admin, &id, CallCommand::End)
        .unwrap();
    assert_eq!(
        registry
            .remove_terminal_authorized(&admin, &id)
            .unwrap()
            .state,
        CallState::Ended
    );
}

#[test]
fn bounded_registry_emits_stable_events_and_reclaims_terminal_calls() {
    let mut registry = CallRegistry::new(CallRegistryConfig {
        max_calls: 1,
        max_pending_events: 8,
        max_command_keys: 8,
    })
    .unwrap();
    let id = registry.create().unwrap();
    assert_eq!(id.as_str(), "call_1");
    assert_eq!(registry.pending_events(), 1);
    assert_eq!(
        registry
            .apply(&id, CallCommand::InviteReceived)
            .unwrap()
            .unwrap()
            .kind,
        CallEventKind::InviteReceived
    );
    registry.apply(&id, CallCommand::Hangup).unwrap();
    registry.apply(&id, CallCommand::End).unwrap();
    assert_eq!(registry.snapshot(&id).unwrap().state, CallState::Ended);
    registry.remove_terminal(&id).unwrap();
    assert!(matches!(registry.create(), Ok(next) if next.as_str() == "call_2"));
}

#[test]
fn metrics_track_lifecycle_counters_and_bounded_gauges() {
    let mut registry = CallRegistry::new(CallRegistryConfig {
        max_calls: 1,
        max_pending_events: 8,
        max_command_keys: 1,
    })
    .unwrap();
    assert_eq!(registry.metrics(), CallMetrics::default());

    let id = registry.create().unwrap();
    let created = registry.metrics();
    assert_eq!(created.calls_started_total, 1);
    assert_eq!(created.calls_active, 1);
    assert_eq!(created.calls_retained, 1);
    assert_eq!(created.lifecycle_events_total, 1);
    assert_eq!(created.pending_events, 1);
    assert_eq!(created.retained_event_history, 1);
    assert_eq!(created.retained_command_keys, 0);
    registry.drain_events(8).unwrap();

    registry.apply(&id, CallCommand::InviteReceived).unwrap();
    registry.apply(&id, CallCommand::Ringing).unwrap();
    registry.apply(&id, CallCommand::Answer).unwrap();
    let answered = registry.metrics();
    assert_eq!(answered.calls_started_total, 1);
    assert_eq!(answered.calls_answered_total, 1);
    assert_eq!(answered.calls_failed_total, 0);
    assert_eq!(answered.calls_completed_total, 0);
    assert_eq!(answered.calls_active, 1);
    assert_eq!(answered.lifecycle_events_total, 4);
    assert_eq!(answered.pending_events, 3);
    assert_eq!(answered.retained_event_history, 4);

    registry.apply(&id, CallCommand::Hangup).unwrap();
    registry.apply(&id, CallCommand::End).unwrap();
    let ended = registry.metrics();
    assert_eq!(ended.calls_completed_total, 1);
    assert_eq!(ended.calls_active, 0);
    assert_eq!(ended.lifecycle_events_total, 6);
    registry.remove_terminal(&id).unwrap();
    assert_eq!(registry.metrics().calls_started_total, 1);
    assert_eq!(registry.metrics().calls_active, 0);
    assert_eq!(registry.metrics().calls_retained, 0);
}

#[test]
fn failed_calls_are_counted_once_and_idempotency_gauge_is_bounded() {
    let mut registry = CallRegistry::new(CallRegistryConfig {
        max_calls: 1,
        max_pending_events: 8,
        max_command_keys: 1,
    })
    .unwrap();
    let id = registry.create().unwrap();
    registry.drain_events(8).unwrap();
    let command_id = CommandId::from_sequence(1);
    registry
        .apply_idempotent(&id, CallCommand::Fail, command_id.clone())
        .unwrap();
    let failed = registry.metrics();
    assert_eq!(failed.calls_failed_total, 1);
    assert_eq!(failed.calls_active, 0);
    assert_eq!(failed.retained_command_keys, 1);
    let replay = registry
        .apply_idempotent(&id, CallCommand::Fail, command_id)
        .unwrap();
    assert!(replay.replayed);
    assert_eq!(registry.metrics().calls_failed_total, 1);
    assert_eq!(registry.metrics().retained_command_keys, 1);
}

#[test]
fn invalid_commands_do_not_mutate_state_and_error_codes_are_stable() {
    let mut registry = CallRegistry::new(CallRegistryConfig::default()).unwrap();
    let id = registry.create().unwrap();
    let error = registry.apply(&id, CallCommand::MediaStarted).unwrap_err();
    assert_eq!(error.code(), "invalid_command");
    assert_eq!(registry.snapshot(&id).unwrap().state, CallState::Created);
    assert_eq!(registry.drain_events(0), Err(ApiError::InvalidLimit));
    assert_eq!(registry.list(0), Err(ApiError::InvalidLimit));
}

#[test]
fn dialog_binding_is_visible_without_using_sip_call_id_as_app_id() {
    let mut registry = CallRegistry::new(CallRegistryConfig::default()).unwrap();
    let id = registry.create().unwrap();
    let dialog = DialogId::new("call-123@example.com", "local-1", "remote-1");
    registry.bind_dialog(&id, dialog.clone()).unwrap();
    let snapshot = registry.snapshot(&id).unwrap();
    assert_eq!(snapshot.id.as_str(), "call_1");
    assert_eq!(
        snapshot.dialog_id.unwrap().call_id(),
        "call-123@example.com"
    );
    assert_eq!(
        registry.bind_dialog(&id, dialog),
        Err(ApiError::DialogAlreadyBound)
    );
}

#[test]
fn limits_are_enforced_before_state_or_event_mutation() {
    let mut registry = CallRegistry::new(CallRegistryConfig {
        max_calls: 2,
        max_pending_events: 1,
        max_command_keys: 1,
    })
    .unwrap();
    let first = registry.create().unwrap();
    assert_eq!(
        registry.apply(&first, CallCommand::InviteReceived),
        Err(ApiError::EventQueueFull)
    );
    assert_eq!(registry.snapshot(&first).unwrap().state, CallState::Created);
    assert_eq!(registry.create(), Err(ApiError::EventQueueFull));
    registry.drain_events(1).unwrap();
    assert_eq!(registry.create().unwrap().as_str(), "call_2");
}

#[test]
fn terminal_end_emits_an_explicit_event_and_replay_is_cursored() {
    let mut registry = CallRegistry::new(CallRegistryConfig {
        max_calls: 1,
        max_pending_events: 8,
        max_command_keys: 8,
    })
    .unwrap();
    let id = registry.create().unwrap();
    registry.apply(&id, CallCommand::InviteReceived).unwrap();
    registry.apply(&id, CallCommand::Hangup).unwrap();
    registry.apply(&id, CallCommand::End).unwrap();

    let events = registry.drain_events(8).unwrap();
    assert_eq!(
        events.iter().map(|event| event.kind).collect::<Vec<_>>(),
        vec![
            CallEventKind::Created,
            CallEventKind::InviteReceived,
            CallEventKind::Hangup,
            CallEventKind::Ended,
        ]
    );
    assert_eq!(registry.latest_event_id(), Some(&events[3].event_id));
    assert_eq!(registry.oldest_event_id(), Some(&events[0].event_id));
    assert_eq!(
        registry
            .replay_events_after(Some(&events[0].event_id), 2)
            .unwrap(),
        events[1..3].to_vec()
    );
    assert_eq!(
        registry
            .replay_events_after(Some(&events[3].event_id), 2)
            .unwrap(),
        Vec::<LifecycleEvent>::new()
    );
}

#[test]
fn replay_rejects_evicted_cursors_instead_of_silently_skipping_events() {
    let mut registry = CallRegistry::new(CallRegistryConfig {
        max_calls: 1,
        max_pending_events: 2,
        max_command_keys: 2,
    })
    .unwrap();
    let id = registry.create().unwrap();
    let created = registry.drain_events(2).unwrap().pop().unwrap();
    registry.apply(&id, CallCommand::InviteReceived).unwrap();
    registry.drain_events(2).unwrap();
    registry.apply(&id, CallCommand::Ringing).unwrap();
    registry.drain_events(2).unwrap();

    assert_eq!(
        registry.replay_events_after(Some(&created.event_id), 1),
        Err(ApiError::EventHistoryUnavailable)
    );
    assert_eq!(registry.replay_events_after(None, 8).unwrap().len(), 2);
    assert_eq!(
        registry.replay_events_after(None, 0),
        Err(ApiError::InvalidLimit)
    );
}

#[test]
fn idempotent_command_retries_replay_once_without_duplicate_events() {
    let mut registry = CallRegistry::new(CallRegistryConfig {
        max_calls: 1,
        max_pending_events: 8,
        max_command_keys: 4,
    })
    .unwrap();
    let id = registry.create().unwrap();
    registry.drain_events(8).unwrap();
    let command_id = CommandId::from_sequence(1);

    let first = registry
        .apply_idempotent(&id, CallCommand::InviteReceived, command_id.clone())
        .unwrap();
    assert!(!first.replayed);
    let first_event = first.event.clone().unwrap();
    assert_eq!(registry.drain_events(8).unwrap(), vec![first_event.clone()]);

    let retry = registry
        .apply_idempotent(&id, CallCommand::InviteReceived, command_id.clone())
        .unwrap();
    assert!(retry.replayed);
    assert_eq!(retry.event, Some(first_event));
    assert_eq!(registry.pending_events(), 0);
    assert_eq!(registry.snapshot(&id).unwrap().state, CallState::Inviting);

    assert_eq!(
        registry.apply_idempotent(&id, CallCommand::Ringing, command_id),
        Err(ApiError::IdempotencyConflict)
    );
    assert_eq!(registry.pending_events(), 0);
    assert_eq!(registry.snapshot(&id).unwrap().state, CallState::Inviting);
}

#[test]
fn idempotency_keys_are_bounded_and_evicted_in_emission_order() {
    let mut registry = CallRegistry::new(CallRegistryConfig {
        max_calls: 1,
        max_pending_events: 8,
        max_command_keys: 1,
    })
    .unwrap();
    let id = registry.create().unwrap();
    registry.drain_events(8).unwrap();
    let first_key = CommandId::from_sequence(1);
    let second_key = CommandId::from_sequence(2);
    registry
        .apply_idempotent(&id, CallCommand::InviteReceived, first_key.clone())
        .unwrap();
    registry.drain_events(8).unwrap();
    registry
        .apply_idempotent(&id, CallCommand::Ringing, second_key)
        .unwrap();
    registry.drain_events(8).unwrap();

    let reused = registry
        .apply_idempotent(&id, CallCommand::Answer, first_key)
        .unwrap();
    assert!(!reused.replayed);
    assert_eq!(reused.event.unwrap().kind, CallEventKind::Answered);
    assert_eq!(registry.snapshot(&id).unwrap().state, CallState::Answered);
}

#[test]
fn create_with_id_rejects_duplicates_and_zero_bounds_are_refused() {
    assert!(matches!(
        CallRegistry::new(CallRegistryConfig {
            max_calls: 0,
            max_pending_events: 1,
            max_command_keys: 1,
        }),
        Err(ApiError::InvalidConfig)
    ));
    let mut registry = CallRegistry::new(CallRegistryConfig::default()).unwrap();
    let chosen = CallId::new("call_custom").unwrap();
    assert_eq!(registry.create_with_id(chosen.clone()).unwrap(), chosen);
    assert_eq!(
        registry.create_with_id(chosen.clone()),
        Err(ApiError::DuplicateCall)
    );
    assert_eq!(
        registry.apply(&CallId::from_sequence(5), CallCommand::Hangup),
        Err(ApiError::UnknownCall)
    );
    assert_eq!(
        registry.remove_terminal(&chosen),
        Err(ApiError::InvalidCommand {
            state: CallState::Created,
            command: CallCommand::End,
        })
    );
    let generated = registry.create().unwrap();
    let listed = registry.list(8).unwrap();
    assert_eq!(listed.len(), 2);
    assert_eq!(listed[0].id, generated);
    assert_eq!(listed[1].id, chosen);
}

#[test]
fn repeated_command_is_invalid_and_failed_calls_can_end() {
    let mut registry = CallRegistry::new(CallRegistryConfig::default()).unwrap();
    let id = registry.create().unwrap();
    registry.apply(&id, CallCommand::Fail).unwrap();
    assert_eq!(
        registry.apply(&id, CallCommand::Fail),
        Err(ApiError::InvalidCommand {
            state: CallState::Failed,
            command: CallCommand::Fail,
        })
    );
    let ended = registry.apply(&id, CallCommand::End).unwrap().unwrap();
    assert_eq!(ended.kind, CallEventKind::Ended);
    assert_eq!(ended.event_id.as_str(), "evt_3");
    assert_eq!(registry.metrics().calls_completed_total, 1);
    assert_eq!(ApiError::EventHistoryUnavailable.code(), "event_history_unavailable");
}

#[test]
fn retained_keys_replay_after_other_commands() {
    let mut registry = CallRegistry::new(CallRegistryConfig {
        max_calls: 1,
        max_pending_events: 8,
        max_command_keys: 3,
    })
    .unwrap();
    let id = registry.create().unwrap();
    registry.drain_events(8).unwrap();
    let first_key = CommandId::from_sequence(1);
    let first = registry
        .apply_idempotent(&id, CallCommand::InviteReceived, first_key.clone())
        .unwrap();
    registry
        .apply_idempotent(&id, CallCommand::Ringing, CommandId::from_sequence(2))
        .unwrap();
    registry.apply(&id, CallCommand::Answer).unwrap();
    registry.drain_events(8).unwrap();
    let pending = registry.pending_events();
    let retry = registry
        .apply_idempotent(&id, CallCommand::InviteReceived, first_key.clone())
        .unwrap();
    assert!(retry.replayed);
    assert_eq!(retry.event, first.event);
    assert_eq!(
        registry.apply_idempotent(&id, CallCommand::Hangup, first_key),
        Err(ApiError::IdempotencyConflict)
    );
    assert_eq!(registry.pending_events(), pending);
    assert_eq!(registry.snapshot(&id).unwrap().state, CallState::Answered);
}

fn audio_codec(payload_type: u8, name: &str, telephone_event: bool) -> SdpCodec {
    SdpCodec {
        payload_type,
        name: name.to_owned(),
        clock_rate: 8000,
        channels: 1,
        fmtp: None,
        telephone_event,
    }
}

fn local_audio_description() -> Vec<MediaSection> {
    vec![MediaSection {
        media: "audio".to_owned(),
        port: 5000,
        formats: vec![0, 101],
        codecs: vec![
            audio_codec(0, "PCMU", false),
            audio_codec(101, "telephone-event", true),
        ],
        connection: Some("IN IP4 192.0.2.20".to_owned()),
    }]
}

fn remote_audio_description(port: u16, payload_type: u8, name: &str) -> Vec<MediaSection> {
    vec![MediaSection {
        media: "audio".to_owned(),
        port,
        formats: vec![payload_type],
        codecs: vec![audio_codec(payload_type, name, false)],
        connection: None,
    }]
}

#[test]
fn audio_negotiation_retains_codec_direction_and_remote_endpoint() {
    let mut registry = CallRegistry::new(CallRegistryConfig::default()).unwrap();
    let id = registry.create().unwrap();
    let local = local_audio_description();
    let remote = remote_audio_description(4000, 96, "PCMU");
    let session = Some("IN IP4 192.0.2.10".to_owned());

    let negotiated = registry
        .negotiate_audio(&id, &local, &remote, &session, Direction::RecvOnly)
        .unwrap();
    assert_eq!(negotiated.local_codec.payload_type, 0);
    assert_eq!(negotiated.remote_codec.payload_type, 96);
    assert_eq!(negotiated.direction, Direction::RecvOnly);
    assert_eq!(
        negotiated.remote_connection.as_deref(),
        Some("IN IP4 192.0.2.10")
    );
    assert_eq!(negotiated.remote_port, 4000);
    assert_eq!(registry.media(&id).unwrap(), Some(negotiated.clone()));
    assert_eq!(registry.snapshot(&id).unwrap().media, Some(negotiated));
}

#[test]
fn failed_audio_negotiation_does_not_replace_existing_binding() {
    let mut registry = CallRegistry::new(CallRegistryConfig::default()).unwrap();
    let id = registry.create().unwrap();
    let local = local_audio_description();
    let session = Some("IN IP4 192.0.2.10".to_owned());
    let good = remote_audio_description(4000, 96, "PCMU");
    let expected = registry
        .negotiate_audio(&id, &local, &good, &session, Direction::RecvOnly)
        .unwrap();
    let remote = remote_audio_description(4000, 9, "G722");
    assert_eq!(
        registry.negotiate_audio(&id, &local, &remote, &session, Direction::SendRecv),
        Err(ApiError::NoCommonCodec)
    );
    assert_eq!(registry.media(&id).unwrap(), Some(expected.clone()));

    let mut rejected = remote_audio_description(0, 0, "PCMU");
    rejected[0].codecs.clear();
    assert_eq!(
        registry.negotiate_audio(&id, &local, &rejected, &None, Direction::SendRecv),
        Err(ApiError::MediaRejected)
    );
    assert_eq!(registry.media(&id).unwrap(), Some(expected));
}

#[test]
fn audio_negotiation_needs_a_known_call() {
    let mut registry = CallRegistry::new(CallRegistryConfig::default()).unwrap();
    let unknown = CallId::new("call_missing").unwrap();
    let local = local_audio_description();
    let remote = remote_audio_description(4000, 0, "PCMU");
    assert_eq!(
        registry.negotiate_audio(&unknown, &local, &remote, &None, Direction::SendRecv),
        Err(ApiError::UnknownCall)
    );
    assert_eq!(registry.media(&unknown), Err(ApiError::UnknownCall));
    let id = registry.create().unwrap();
    assert_eq!(registry.media(&id).unwrap(), None);
    assert_eq!(
        registry.negotiate_audio(&id, &[], &remote, &None, Direction::SendRecv),
        Err(ApiError::NoAudioMedia)
    );
    assert_eq!(registry.snapshot(&id).unwrap().media, None);
}
