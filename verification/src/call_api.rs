//! Bounded internal call-control API and lifecycle event registry.
//!
//! The registry composes call state, SIP dialog identities and lifecycle
//! events without owning sockets, transactions or an async runtime. Every
//! collection it keeps is bounded by its [`CallRegistryConfig`].

use std::collections::VecDeque;

use vstd::prelude::*;
use vstd::string::*;

use crate::call_core::{
    call_prefix, event_prefix, is_valid_transition, valid_transition, CallEventKind, CallId,
    CallState, CommandId, EventId, LifecycleEvent,
};
use crate::negotiation::{
    clone_media, into_negotiated, negotiated, select_audio, selects, AudioSelection, Direction,
    MediaSection, NegotiatedAudio,
};
use crate::text::{
    all_graphic, decimal_digits, is_bounded_graphic_with_prefix, lemma_decimal_digits_injective,
    lemma_text_order, text_less,
    text_lt,
};

verus! {

broadcast use vstd::string::group_string_axioms;

pub const DEFAULT_MAX_CALLS: usize = 4096;

pub const DEFAULT_MAX_PENDING_EVENTS: usize = 16384;

pub const DEFAULT_MAX_COMMAND_KEYS: usize = 4096;

/// Maximum bytes of a verified principal identifier.
pub const MAX_PRINCIPAL_ID_BYTES: usize = 128;

/// Permission granted to an authenticated control-plane principal.
///
/// The SIP transport and its internally generated lifecycle commands remain a
/// trusted engine boundary. These permissions govern application-originated
/// calls into the control API.
#[derive(Clone, Copy, Debug, PartialEq, Eq, Hash, PartialOrd, Ord, Structural)]
pub enum ControlPermission {
    /// Read call snapshots and retained lifecycle events.
    ReadCalls,
    /// Start a new outbound call or mark a call as invited.
    OriginateCalls,
    /// Advance a call through ringing, answer, early media, or active media.
    ManageCalls,
    /// Begin or complete a transfer.
    TransferCalls,
    /// Hang up, fail, end, or reclaim a call.
    HangupCalls,
    /// Bypass command-specific permissions for an explicitly trusted operator.
    Admin,
}

/// The stable machine-readable name of a permission.
pub open spec fn permission_code(permission: ControlPermission) -> Seq<char> {
    match permission {
        ControlPermission::ReadCalls => "calls:read"@,
        ControlPermission::OriginateCalls => "calls:originate"@,
        ControlPermission::ManageCalls => "calls:manage"@,
        ControlPermission::TransferCalls => "calls:transfer"@,
        ControlPermission::HangupCalls => "calls:hangup"@,
        ControlPermission::Admin => "calls:admin"@,
    }
}

/// The bit a permission occupies in a principal's permission set.
pub open spec fn permission_bit(permission: ControlPermission) -> u16 {
    match permission {
        ControlPermission::ReadCalls => 1,
        ControlPermission::OriginateCalls => 2,
        ControlPermission::ManageCalls => 4,
        ControlPermission::TransferCalls => 8,
        ControlPermission::HangupCalls => 16,
        ControlPermission::Admin => 32,
    }
}

impl ControlPermission {
    /// Returns the stable machine-readable permission name.
    pub fn code(self) -> (code: &'static str)
        ensures
            code@ == permission_code(self),
    {
        match self {
            ControlPermission::ReadCalls => "calls:read",
            ControlPermission::OriginateCalls => "calls:originate",
            ControlPermission::ManageCalls => "calls:manage",
            ControlPermission::TransferCalls => "calls:transfer",
            ControlPermission::HangupCalls => "calls:hangup",
            ControlPermission::Admin => "calls:admin",
        }
    }

    fn bit(self) -> (bit: u16)
        ensures
            bit == permission_bit(self),
    {
        match self {
            ControlPermission::ReadCalls => 1,
            ControlPermission::OriginateCalls => 2,
            ControlPermission::ManageCalls => 4,
            ControlPermission::TransferCalls => 8,
            ControlPermission::HangupCalls => 16,
            ControlPermission::Admin => 32,
        }
    }
}

proof fn lemma_bit_union(bits: u16, added: u16, probe: u16)
    by (bit_vector)
    requires
        added == 1 || added == 2 || added == 4 || added == 8 || added == 16 || added == 32,
        probe == 1 || probe == 2 || probe == 4 || probe == 8 || probe == 16 || probe == 32,
    ensures
        ((bits | added) & probe != 0) == ((bits & probe != 0) || added == probe),
        (0u16 & probe) == 0,
{
}

proof fn lemma_bits_distinct(a: ControlPermission, b: ControlPermission)
    ensures
        (permission_bit(a) == permission_bit(b)) == (a == b),
{
}

/// Identity and verified permissions handed off by an outer authentication
/// adapter.
///
/// Only a bounded, non-secret principal ID and permission bits are stored.
/// Bearer tokens, passwords, signatures, and verification keys remain in the
/// adapter that authenticates the request.
#[derive(Debug, PartialEq, Eq)]
pub struct AuthenticatedPrincipal {
    id: String,
    permissions: u16,
}

/// A principal as the contracts see it: its identifier and permission bits.
pub struct PrincipalView {
    pub id: Seq<char>,
    pub permissions: u16,
}

impl View for AuthenticatedPrincipal {
    type V = PrincipalView;

    closed spec fn view(&self) -> PrincipalView {
        PrincipalView { id: self.id@, permissions: self.permissions }
    }
}

impl Clone for AuthenticatedPrincipal {
    fn clone(&self) -> (copy: Self)
        ensures
            copy@ == self@,
    {
        AuthenticatedPrincipal { id: self.id.clone(), permissions: self.permissions }
    }
}

/// Whether a principal holds a permission.
pub open spec fn grants(principal: PrincipalView, permission: ControlPermission) -> bool {
    principal.permissions & permission_bit(permission) != 0
}

/// A principal identifier: non-empty printable ASCII of at most 128 bytes.
pub open spec fn valid_principal_id(id: Seq<char>) -> bool {
    0 < id.len() <= MAX_PRINCIPAL_ID_BYTES && all_graphic(id)
}

/// The permission an application needs for a lifecycle command.
pub open spec fn command_permission(command: CallCommand) -> ControlPermission {
    match command {
        CallCommand::InviteReceived => ControlPermission::OriginateCalls,
        CallCommand::EarlyMedia | CallCommand::Ringing | CallCommand::Answer
        | CallCommand::MediaStarted => ControlPermission::ManageCalls,
        CallCommand::BeginTransfer | CallCommand::CompleteTransfer => ControlPermission::TransferCalls,
        CallCommand::Hangup | CallCommand::End | CallCommand::Fail => ControlPermission::HangupCalls,
    }
}

/// Whether a principal may apply a command: it holds the command's permission
/// or is an administrator.
pub open spec fn permits(principal: PrincipalView, command: CallCommand) -> bool {
    grants(principal, command_permission(command)) || grants(principal, ControlPermission::Admin)
}

/// Whether a principal may read calls and events.
pub open spec fn permits_read(principal: PrincipalView) -> bool {
    grants(principal, ControlPermission::ReadCalls) || grants(principal, ControlPermission::Admin)
}

/// The authorization decision for a command.
pub open spec fn authorization(principal: PrincipalView, command: CallCommand) -> Result<
    (),
    ApiError,
> {
    if permits(principal, command) {
        Ok(())
    } else {
        Err(ApiError::PermissionDenied { command, permission: command_permission(command) })
    }
}

impl AuthenticatedPrincipal {
    /// Creates a principal from claims already verified by an outer adapter.
    ///
    /// The ID is bounded and restricted to printable ASCII so it can safely be
    /// used in audit fields. Permissions are kept as a fixed bit set, so
    /// duplicate claims never increase memory usage.
    pub fn from_verified_claims(id: &str, permissions: &[ControlPermission]) -> (result: Result<
        Self,
        ApiError,
    >)
        ensures
            !valid_principal_id(id@) ==> result == Err::<Self, ApiError>(ApiError::InvalidPrincipal),
            valid_principal_id(id@) ==> (result matches Ok(principal) && principal@.id == id@
                && forall|p: ControlPermission|
                #![trigger grants(principal@, p)]
                grants(principal@, p) <==> permissions@.contains(p)),
    {
        let empty = "";
        proof {
            reveal_strlit("");
            assert(empty@.is_prefix_of(id@));
        }
        if !is_bounded_graphic_with_prefix(id, empty, MAX_PRINCIPAL_ID_BYTES) {
            return Err(ApiError::InvalidPrincipal);
        }
        let mut bits: u16 = 0;
        let mut index: usize = 0;
        proof {
            assert forall|p: ControlPermission| #![trigger permission_bit(p)]
                (bits & permission_bit(p) != 0) <==> permissions@.take(0).contains(p) by {
                lemma_bit_union(0, 1, permission_bit(p));
            }
        }
        while index < permissions.len()
            invariant
                index <= permissions@.len(),
                forall|p: ControlPermission|
                    #![trigger permission_bit(p)]
                    (bits & permission_bit(p) != 0) <==> permissions@.take(index as int).contains(p),
            decreases permissions.len() - index,
        {
            let added = permissions[index];
            let next = bits | added.bit();
            proof {
                assert forall|p: ControlPermission| #![trigger permission_bit(p)]
                    (next & permission_bit(p) != 0) <==> permissions@.take(index + 1).contains(p) by {
                    lemma_bit_union(bits, permission_bit(added), permission_bit(p));
                    lemma_bits_distinct(added, p);
                    let prefix = permissions@.take(index as int);
                    assert(permissions@.take(index + 1) =~= prefix.push(added));
                    if prefix.push(added).contains(p) && p != added {
                        let k = choose|k: int| 0 <= k < prefix.push(added).len() && prefix.push(added)[k] == p;
                        assert(prefix[k] == p);
                    }
                    if prefix.contains(p) {
                        let k = choose|k: int| 0 <= k < prefix.len() && prefix[k] == p;
                        assert(prefix.push(added)[k] == p);
                    }
                    if p == added {
                        assert(prefix.push(added)[prefix.len() as int] == p);
                    }
                }
            }
            bits = next;
            index = index + 1;
        }
        proof {
            assert(permissions@.take(permissions@.len() as int) =~= permissions@);
        }
        Ok(AuthenticatedPrincipal { id: id.to_owned(), permissions: bits })
    }

    /// Returns the stable non-secret principal ID.
    pub fn id(&self) -> (id: &str)
        ensures
            id@ == self@.id,
    {
        self.id.as_str()
    }

    /// Returns whether this principal has one permission.
    pub fn has_permission(&self, permission: ControlPermission) -> (has: bool)
        ensures
            has == grants(self@, permission),
    {
        self.permissions & permission.bit() != 0
    }

    /// Authorizes one application-originated lifecycle command.
    pub fn authorize(&self, command: CallCommand) -> (result: Result<(), ApiError>)
        ensures
            result == authorization(self@, command),
    {
        let permission = required_permission(command);
        if self.has_permission(permission) || self.has_permission(ControlPermission::Admin) {
            Ok(())
        } else {
            Err(ApiError::PermissionDenied { command, permission })
        }
    }

    /// Authorizes a read of call state or retained lifecycle events.
    pub fn authorize_read(&self) -> (result: Result<(), ApiError>)
        ensures
            result == (if permits_read(self@) {
                Ok::<(), ApiError>(())
            } else {
                Err(ApiError::ReadPermissionDenied)
            }),
    {
        if self.has_permission(ControlPermission::ReadCalls) || self.has_permission(
            ControlPermission::Admin,
        ) {
            Ok(())
        } else {
            Err(ApiError::ReadPermissionDenied)
        }
    }
}

/// Limits for the in-memory call-control registry.
#[derive(Clone, Copy, Debug, PartialEq, Eq, Structural)]
pub struct CallRegistryConfig {
    /// Maximum number of active call records retained at once.
    pub max_calls: usize,
    /// Maximum number of lifecycle events retained until drained.
    pub max_pending_events: usize,
    /// Maximum number of idempotency keys retained for command retries.
    pub max_command_keys: usize,
}

impl Default for CallRegistryConfig {
    fn default() -> (config: Self)
        ensures
            config.max_calls == DEFAULT_MAX_CALLS,
            config.max_pending_events == DEFAULT_MAX_PENDING_EVENTS,
            config.max_command_keys == DEFAULT_MAX_COMMAND_KEYS,
    {
        CallRegistryConfig {
            max_calls: DEFAULT_MAX_CALLS,
            max_pending_events: DEFAULT_MAX_PENDING_EVENTS,
            max_command_keys: DEFAULT_MAX_COMMAND_KEYS,
        }
    }
}

/// A usable configuration: every bound is non-zero.
pub open spec fn valid_config(config: CallRegistryConfig) -> bool {
    config.max_calls > 0 && config.max_pending_events > 0 && config.max_command_keys > 0
}

impl CallRegistryConfig {
    fn validate(self) -> (result: Result<Self, ApiError>)
        ensures
            result == (if valid_config(self) {
                Ok(self)
            } else {
                Err(ApiError::InvalidConfig)
            }),
    {
        if self.max_calls == 0 || self.max_pending_events == 0 || self.max_command_keys == 0 {
            return Err(ApiError::InvalidConfig);
        }
        Ok(self)
    }
}

/// Internal call-control operations corresponding to the lifecycle contract.
#[derive(Clone, Copy, Debug, PartialEq, Eq, Structural)]
pub enum CallCommand {
    /// A new inbound or outbound INVITE is being attempted.
    InviteReceived,
    /// Early media became available.
    EarlyMedia,
    /// The remote side is ringing.
    Ringing,
    /// The call was answered.
    Answer,
    /// Media forwarding started.
    MediaStarted,
    /// A transfer was requested.
    BeginTransfer,
    /// A transfer completed and the active leg resumed.
    CompleteTransfer,
    /// Hang up and begin terminal cleanup.
    Hangup,
    /// Finish cleanup after hangup or failure.
    End,
    /// Mark the call as failed.
    Fail,
}

fn required_permission(command: CallCommand) -> (permission: ControlPermission)
    ensures
        permission == command_permission(command),
{
    match command {
        CallCommand::InviteReceived => ControlPermission::OriginateCalls,
        CallCommand::EarlyMedia | CallCommand::Ringing | CallCommand::Answer
        | CallCommand::MediaStarted => ControlPermission::ManageCalls,
        CallCommand::BeginTransfer | CallCommand::CompleteTransfer => ControlPermission::TransferCalls,
        CallCommand::Hangup | CallCommand::End | CallCommand::Fail => ControlPermission::HangupCalls,
    }
}

/// The state a command moves a call to and the event it emits.
pub open spec fn command_target(command: CallCommand) -> (CallState, CallEventKind) {
    match command {
        CallCommand::InviteReceived => (CallState::Inviting, CallEventKind::InviteReceived),
        CallCommand::EarlyMedia => (CallState::Early, CallEventKind::EarlyMedia),
        CallCommand::Ringing => (CallState::Ringing, CallEventKind::Ringing),
        CallCommand::Answer => (CallState::Answered, CallEventKind::Answered),
        CallCommand::MediaStarted => (CallState::Active, CallEventKind::MediaStarted),
        CallCommand::BeginTransfer => (CallState::Transferring, CallEventKind::Transferring),
        CallCommand::CompleteTransfer => (CallState::Active, CallEventKind::Transferred),
        CallCommand::Hangup => (CallState::Ending, CallEventKind::Hangup),
        CallCommand::End => (CallState::Ended, CallEventKind::Ended),
        CallCommand::Fail => (CallState::Failed, CallEventKind::Failed),
    }
}

fn command_transition(command: CallCommand) -> (target: (CallState, CallEventKind))
    ensures
        target == command_target(command),
{
    match command {
        CallCommand::InviteReceived => (CallState::Inviting, CallEventKind::InviteReceived),
        CallCommand::EarlyMedia => (CallState::Early, CallEventKind::EarlyMedia),
        CallCommand::Ringing => (CallState::Ringing, CallEventKind::Ringing),
        CallCommand::Answer => (CallState::Answered, CallEventKind::Answered),
        CallCommand::MediaStarted => (CallState::Active, CallEventKind::MediaStarted),
        CallCommand::BeginTransfer => (CallState::Transferring, CallEventKind::Transferring),
        CallCommand::CompleteTransfer => (CallState::Active, CallEventKind::Transferred),
        CallCommand::Hangup => (CallState::Ending, CallEventKind::Hangup),
        CallCommand::End => (CallState::Ended, CallEventKind::Ended),
        CallCommand::Fail => (CallState::Failed, CallEventKind::Failed),
    }
}

/// A bridge-control operation represented in the bounded audit trail.
///
/// Bridge state is owned by the bridge registry rather than the call
/// registry, but the audit trail keeps one stable operation vocabulary for
/// all application-originated control-plane mutations.
#[derive(Clone, Copy, Debug, PartialEq, Eq, Structural)]
pub enum BridgeControlOperation {
    /// Start an outbound human second leg for a bridge.
    OriginateHuman,
    /// Promote a pending human leg to the active destination.
    CompleteHuman,
    /// Fail a human leg and restore AI routing.
    FailHuman,
    /// Restore AI routing from an active human leg.
    ResumeAi,
    /// End bridge forwarding and release its retained endpoints.
    EndBridge,
}

/// A control-plane operation represented in the bounded audit trail.
#[derive(Clone, Copy, Debug, PartialEq, Eq, Structural)]
pub enum AuditOperation {
    /// Apply a lifecycle command, optionally using an idempotency key.
    ApplyCommand {
        /// Lifecycle command requested by the caller.
        command: CallCommand,
        /// Whether the command was submitted through the idempotent API.
        idempotent: bool,
    },
    /// Start an outbound call.
    Originate,
    /// Respond to an inbound INVITE.
    RespondToInvite,
    /// Reclaim terminal call resources.
    ReclaimTerminal,
    /// Negotiate or update the call's audio media.
    NegotiateAudio,
    /// Send an application-controlled in-dialog SIP request.
    InDialogRequest,
    /// Apply an authorized bridge-control operation.
    BridgeControl {
        /// Bridge operation requested by the caller.
        operation: BridgeControlOperation,
    },
}

/// Outcome recorded for one control-plane audit operation.
#[derive(Clone, Copy, Debug, PartialEq, Eq)]
pub enum AuditOutcome {
    /// The operation completed and changed or read the requested state.
    Succeeded,
    /// An idempotent retry returned its retained result.
    Replayed,
    /// The operation was rejected; the value is a stable [`ApiError::code`].
    Rejected(&'static str),
}

/// Whether a recorded outcome reports a result: success, replay, or the code
/// of the error.
pub open spec fn outcome_reports(outcome: AuditOutcome, result: Result<(), ApiError>, replayed: bool) -> bool {
    match result {
        Ok(()) => if replayed {
            outcome == AuditOutcome::Replayed
        } else {
            outcome == AuditOutcome::Succeeded
        },
        Err(error) => outcome matches AuditOutcome::Rejected(code) && code@ == api_error_code(error),
    }
}

/// One bounded, credential-free control-plane audit record.
#[derive(Debug, PartialEq, Eq)]
pub struct AuditRecord {
    /// Monotonic sequence within the lifetime of the registry.
    pub sequence: u64,
    /// Verified, non-secret principal identifier.
    pub principal_id: String,
    /// Application call identifier supplied to or produced by the operation.
    pub call_id: Option<CallId>,
    /// Operation that was requested.
    pub operation: AuditOperation,
    /// Result visible to the control-plane caller.
    pub outcome: AuditOutcome,
}

fn clone_call_id(id: &Option<CallId>) -> (copy: Option<CallId>)
    ensures
        copy == *id,
{
    match id {
        Some(id) => Some(id.clone()),
        None => None,
    }
}

impl Clone for AuditRecord {
    fn clone(&self) -> (copy: Self)
        ensures
            copy == *self,
    {
        AuditRecord {
            sequence: self.sequence,
            principal_id: self.principal_id.clone(),
            call_id: clone_call_id(&self.call_id),
            operation: self.operation,
            outcome: self.outcome,
        }
    }
}

/// The tag-qualified identity of a SIP dialog bound to a call: the SIP
/// `Call-ID` and the local and remote tags.
#[derive(Debug, PartialEq, Eq)]
pub struct DialogId {
    call_id: String,
    local_tag: String,
    remote_tag: String,
}

/// A dialog identity as plain text.
pub struct DialogIdView {
    pub call_id: Seq<char>,
    pub local_tag: Seq<char>,
    pub remote_tag: Seq<char>,
}

impl View for DialogId {
    type V = DialogIdView;

    closed spec fn view(&self) -> DialogIdView {
        DialogIdView { call_id: self.call_id@, local_tag: self.local_tag@, remote_tag: self.remote_tag@ }
    }
}

impl Clone for DialogId {
    fn clone(&self) -> (copy: Self)
        ensures
            copy == *self,
    {
        DialogId {
            call_id: self.call_id.clone(),
            local_tag: self.local_tag.clone(),
            remote_tag: self.remote_tag.clone(),
        }
    }
}

impl DialogId {
    /// Creates a dialog identity from its SIP `Call-ID` and tags.
    pub fn new(call_id: &str, local_tag: &str, remote_tag: &str) -> (id: Self)
        ensures
            id@.call_id == call_id@,
            id@.local_tag == local_tag@,
            id@.remote_tag == remote_tag@,
    {
        DialogId {
            call_id: call_id.to_owned(),
            local_tag: local_tag.to_owned(),
            remote_tag: remote_tag.to_owned(),
        }
    }

    /// Returns the SIP `Call-ID` of the dialog.
    pub fn call_id(&self) -> (call_id: &str)
        ensures
            call_id@ == self@.call_id,
    {
        self.call_id.as_str()
    }

    /// Returns the local tag.
    pub fn local_tag(&self) -> (tag: &str)
        ensures
            tag@ == self@.local_tag,
    {
        self.local_tag.as_str()
    }

    /// Returns the remote tag.
    pub fn remote_tag(&self) -> (tag: &str)
        ensures
            tag@ == self@.remote_tag,
    {
        self.remote_tag.as_str()
    }
}

/// A stable, read-only view of a registered call.
#[derive(Debug, PartialEq, Eq)]
pub struct CallSnapshot {
    /// Application-owned call identifier.
    pub id: CallId,
    /// Current high-level lifecycle state.
    pub state: CallState,
    /// Optional tag-qualified SIP dialog identity.
    pub dialog_id: Option<DialogId>,
    /// Current negotiated audio media, if an offer/answer has completed.
    pub media: Option<NegotiatedAudio>,
}

impl Clone for CallSnapshot {
    fn clone(&self) -> (copy: Self)
        ensures
            copy == *self,
    {
        CallSnapshot {
            id: self.id.clone(),
            state: self.state,
            dialog_id: match &self.dialog_id {
                Some(dialog) => Some(dialog.clone()),
                None => None,
            },
            media: clone_media(&self.media),
        }
    }
}

/// Result of applying a call command with an idempotency key.
#[derive(Debug, PartialEq, Eq)]
pub struct CommandResult {
    /// Lifecycle event produced by the command, if any.
    pub event: Option<LifecycleEvent>,
    /// Whether the result was replayed from the bounded idempotency store.
    pub replayed: bool,
}

fn clone_event(event: &Option<LifecycleEvent>) -> (copy: Option<LifecycleEvent>)
    ensures
        copy == *event,
{
    match event {
        Some(event) => Some(event.clone()),
        None => None,
    }
}

impl Clone for CommandResult {
    fn clone(&self) -> (copy: Self)
        ensures
            copy == *self,
    {
        CommandResult { event: clone_event(&self.event), replayed: self.replayed }
    }
}

/// Bounded, cardinality-safe call-control metrics.
///
/// Counters are cumulative for the lifetime of a registry. Gauges describe
/// the currently retained in-memory state. No call, SIP, provider, principal,
/// or credential identifiers are included.
#[derive(Clone, Copy, Debug, PartialEq, Eq, Structural)]
pub struct CallMetrics {
    /// Number of calls registered since the registry was created.
    pub calls_started_total: u64,
    /// Number of calls that reached the answered state.
    pub calls_answered_total: u64,
    /// Number of calls marked failed.
    pub calls_failed_total: u64,
    /// Number of calls that reached the ended state.
    pub calls_completed_total: u64,
    /// Number of non-terminal calls currently retained.
    pub calls_active: usize,
    /// Number of call records currently retained, including terminal calls
    /// awaiting explicit reclamation.
    pub calls_retained: usize,
    /// Number of lifecycle events emitted since the registry was created.
    pub lifecycle_events_total: u64,
    /// Number of events waiting for delivery.
    pub pending_events: usize,
    /// Number of events available for bounded replay.
    pub retained_event_history: usize,
    /// Number of idempotency keys currently retained.
    pub retained_command_keys: usize,
    /// Number of audit records waiting to be drained.
    pub pending_audit_records: usize,
}

impl Default for CallMetrics {
    fn default() -> (metrics: Self)
        ensures
            metrics == (CallMetrics {
                calls_started_total: 0,
                calls_answered_total: 0,
                calls_failed_total: 0,
                calls_completed_total: 0,
                calls_active: 0,
                calls_retained: 0,
                lifecycle_events_total: 0,
                pending_events: 0,
                retained_event_history: 0,
                retained_command_keys: 0,
                pending_audit_records: 0,
            }),
    {
        CallMetrics {
            calls_started_total: 0,
            calls_answered_total: 0,
            calls_failed_total: 0,
            calls_completed_total: 0,
            calls_active: 0,
            calls_retained: 0,
            lifecycle_events_total: 0,
            pending_events: 0,
            retained_event_history: 0,
            retained_command_keys: 0,
            pending_audit_records: 0,
        }
    }
}

/// Errors exposed by the internal call-control API.
#[derive(Clone, Copy, Debug, PartialEq, Eq, Structural)]
pub enum ApiError {
    /// A registry bound was zero.
    InvalidConfig,
    /// A verified principal ID was empty, too large, or not printable ASCII.
    InvalidPrincipal,
    /// The principal lacks the permission required by a command.
    PermissionDenied {
        /// Rejected lifecycle command.
        command: CallCommand,
        /// Permission required to apply the command.
        permission: ControlPermission,
    },
    /// The principal lacks permission to read call state or events.
    ReadPermissionDenied,
    /// The active-call bound was reached.
    CallLimitReached,
    /// A supplied call identifier is already registered.
    DuplicateCall,
    /// The requested call does not exist.
    UnknownCall,
    /// The pending event bound was reached.
    EventQueueFull,
    /// The requested replay cursor is no longer retained in the bounded history.
    EventHistoryUnavailable,
    /// An idempotency key was reused for a different call or command.
    IdempotencyConflict,
    /// A caller supplied a zero event/list limit.
    InvalidLimit,
    /// The requested command is not valid in the current state.
    InvalidCommand {
        /// Current call state.
        state: CallState,
        /// Rejected lifecycle command.
        command: CallCommand,
    },
    /// The generated identifier sequence cannot advance safely.
    IdentifierExhausted,
    /// A call already has a bound SIP dialog.
    DialogAlreadyBound,
    /// Neither SDP description contains an audio media section.
    NoAudioMedia,
    /// The descriptions do not share a usable audio codec.
    NoCommonCodec,
    /// The remote description rejected its audio media section.
    MediaRejected,
}

/// The stable machine-readable code of an error.
pub open spec fn api_error_code(error: ApiError) -> Seq<char> {
    match error {
        ApiError::InvalidConfig => "invalid_config"@,
        ApiError::InvalidPrincipal => "invalid_principal"@,
        ApiError::PermissionDenied { .. } => "permission_denied"@,
        ApiError::ReadPermissionDenied => "read_permission_denied"@,
        ApiError::CallLimitReached => "call_limit_reached"@,
        ApiError::DuplicateCall => "duplicate_call"@,
        ApiError::UnknownCall => "unknown_call"@,
        ApiError::EventQueueFull => "event_queue_full"@,
        ApiError::EventHistoryUnavailable => "event_history_unavailable"@,
        ApiError::IdempotencyConflict => "idempotency_conflict"@,
        ApiError::InvalidLimit => "invalid_limit"@,
        ApiError::InvalidCommand { .. } => "invalid_command"@,
        ApiError::IdentifierExhausted => "identifier_exhausted"@,
        ApiError::DialogAlreadyBound => "dialog_already_bound"@,
        ApiError::NoAudioMedia => "no_audio_media"@,
        ApiError::NoCommonCodec => "no_common_codec"@,
        ApiError::MediaRejected => "media_rejected"@,
    }
}

impl ApiError {
    /// Returns a stable machine-readable error code.
    pub fn code(self) -> (code: &'static str)
        ensures
            code@ == api_error_code(self),
    {
        match self {
            ApiError::InvalidConfig => "invalid_config",
            ApiError::InvalidPrincipal => "invalid_principal",
            ApiError::PermissionDenied { .. } => "permission_denied",
            ApiError::ReadPermissionDenied => "read_permission_denied",
            ApiError::CallLimitReached => "call_limit_reached",
            ApiError::DuplicateCall => "duplicate_call",
            ApiError::UnknownCall => "unknown_call",
            ApiError::EventQueueFull => "event_queue_full",
            ApiError::EventHistoryUnavailable => "event_history_unavailable",
            ApiError::IdempotencyConflict => "idempotency_conflict",
            ApiError::InvalidLimit => "invalid_limit",
            ApiError::InvalidCommand { .. } => "invalid_command",
            ApiError::IdentifierExhausted => "identifier_exhausted",
            ApiError::DialogAlreadyBound => "dialog_already_bound",
            ApiError::NoAudioMedia => "no_audio_media",
            ApiError::NoCommonCodec => "no_common_codec",
            ApiError::MediaRejected => "media_rejected",
        }
    }
}

/// One retained idempotency key and the result its command produced.
#[derive(Debug)]
pub struct AppliedCommand {
    /// The caller-chosen idempotency key.
    pub command_id: CommandId,
    /// The call the command was applied to.
    pub call_id: CallId,
    /// The command that was applied.
    pub command: CallCommand,
    /// The lifecycle event the command emitted.
    pub event: Option<LifecycleEvent>,
}

/// The storage of a call registry, whose operations ask for well-formedness.
#[derive(Debug)]
pub(crate) struct RegistryCore {
    config: CallRegistryConfig,
    calls: Vec<CallSnapshot>,
    events: VecDeque<LifecycleEvent>,
    event_history: VecDeque<LifecycleEvent>,
    applied_commands: Vec<AppliedCommand>,
    audit_records: VecDeque<AuditRecord>,
    calls_started_total: u64,
    calls_answered_total: u64,
    calls_failed_total: u64,
    calls_completed_total: u64,
    lifecycle_events_total: u64,
    next_call_sequence: u64,
    next_event_sequence: u64,
    next_audit_sequence: u64,
}

/// The abstract registry: retained calls in identifier order, undelivered and
/// replayable events in emission order, retained idempotency keys oldest
/// first, undrained audit records, lifetime counters and the next sequences.
pub struct CallRegistryView {
    pub config: CallRegistryConfig,
    pub calls: Seq<CallSnapshot>,
    pub events: Seq<LifecycleEvent>,
    pub history: Seq<LifecycleEvent>,
    pub applied: Seq<AppliedCommand>,
    pub audit: Seq<AuditRecord>,
    pub started: u64,
    pub answered: u64,
    pub failed: u64,
    pub completed: u64,
    pub events_total: u64,
    pub next_call_sequence: u64,
    pub next_event_sequence: u64,
    pub next_audit_sequence: u64,
}

impl View for RegistryCore {
    type V = CallRegistryView;

    closed spec fn view(&self) -> CallRegistryView {
        CallRegistryView {
            config: self.config,
            calls: self.calls@,
            events: self.events@,
            history: self.event_history@,
            applied: self.applied_commands@,
            audit: self.audit_records@,
            started: self.calls_started_total,
            answered: self.calls_answered_total,
            failed: self.calls_failed_total,
            completed: self.calls_completed_total,
            events_total: self.lifecycle_events_total,
            next_call_sequence: self.next_call_sequence,
            next_event_sequence: self.next_event_sequence,
            next_audit_sequence: self.next_audit_sequence,
        }
    }
}

/// The text of the generated call identifier with a sequence number.
pub open spec fn call_text(sequence: u64) -> Seq<char> {
    call_prefix() + decimal_digits(sequence as nat)
}

/// The text of the generated event identifier with a sequence number.
pub open spec fn event_text(sequence: u64) -> Seq<char> {
    event_prefix() + decimal_digits(sequence as nat)
}

/// Distinct sequence numbers give distinct event identifiers.
pub proof fn lemma_event_text_injective(a: u64, b: u64)
    requires
        event_text(a) == event_text(b),
    ensures
        a == b,
{
    let n = event_prefix().len() as int;
    assert(event_text(a).skip(n) =~= decimal_digits(a as nat));
    assert(event_text(b).skip(n) =~= decimal_digits(b as nat));
    lemma_decimal_digits_injective(a as nat, b as nat);
}

/// The retained history's event identifiers are distinct, each issued from a
/// sequence number below the next one.
pub open spec fn history_ids_issued(history: Seq<LifecycleEvent>, next: u64) -> bool {
    &&& forall|i: int|
        0 <= i < history.len() ==> exists|s: u64|
            s < next && #[trigger] history[i].event_id@ == event_text(s)
    &&& forall|i: int, j: int|
        0 <= i < j < history.len() ==> (#[trigger] history[i]).event_id@
            != (#[trigger] history[j]).event_id@
}

proof fn lemma_history_after_emit(
    history: Seq<LifecycleEvent>,
    next: u64,
    event: LifecycleEvent,
    max: usize,
)
    requires
        history_ids_issued(history, next),
        next < u64::MAX,
        event.event_id@ == event_text(next),
    ensures
        history_ids_issued(retain_recent(history.push(event), max), (next + 1) as u64),
{
    let pushed = history.push(event);
    assert forall|i: int| 0 <= i < pushed.len() implies exists|s: u64|
        s < next + 1 && #[trigger] pushed[i].event_id@ == event_text(s) by {
        if i < history.len() {
            assert(pushed[i] == history[i]);
            let s = choose|s: u64| s < next && history[i].event_id@ == event_text(s);
            assert(s < next + 1 && pushed[i].event_id@ == event_text(s));
        } else {
            assert(pushed[i] == event);
        }
    }
    assert forall|i: int, j: int| 0 <= i < j < pushed.len() implies (#[trigger] pushed[i]).event_id@
        != (#[trigger] pushed[j]).event_id@ by {
        if j < history.len() {
            assert(pushed[i] == history[i] && pushed[j] == history[j]);
        } else {
            assert(pushed[i] == history[i]);
            assert(pushed[j] == event);
            let s = choose|s: u64| s < next && history[i].event_id@ == event_text(s);
            if history[i].event_id@ == event.event_id@ {
                lemma_event_text_injective(s, next);
            }
        }
    }
    assert(history_ids_issued(pushed, (next + 1) as u64));
    let kept = retain_recent(pushed, max);
    if pushed.len() > max {
        let d = pushed.len() - max;
        assert forall|i: int| 0 <= i < kept.len() implies exists|s: u64|
            s < next + 1 && #[trigger] kept[i].event_id@ == event_text(s) by {
            assert(kept[i] == pushed[i + d]);
            let s = choose|s: u64| s < next + 1 && pushed[i + d].event_id@ == event_text(s);
            assert(s < next + 1 && kept[i].event_id@ == event_text(s));
        }
        assert forall|i: int, j: int| 0 <= i < j < kept.len() implies (#[trigger] kept[i]).event_id@
            != (#[trigger] kept[j]).event_id@ by {
            assert(kept[i] == pushed[i + d] && kept[j] == pushed[j + d]);
        }
    }
}

/// A counter advanced by one, saturating at its maximum.
pub open spec fn bump(counter: u64) -> u64 {
    if counter == u64::MAX {
        counter
    } else {
        (counter + 1) as u64
    }
}

pub open spec fn has_call(calls: Seq<CallSnapshot>, id: Seq<char>) -> bool {
    exists|i: int| 0 <= i < calls.len() && #[trigger] calls[i].id@ == id
}

/// The position of a retained call.
pub open spec fn call_index(calls: Seq<CallSnapshot>, id: Seq<char>) -> int {
    choose|i: int| 0 <= i < calls.len() && #[trigger] calls[i].id@ == id
}

pub open spec fn sorted_calls(calls: Seq<CallSnapshot>) -> bool {
    forall|i: int, j: int|
        0 <= i < j < calls.len() ==> text_lt(#[trigger] calls[i].id@, #[trigger] calls[j].id@)
}

/// No idempotency key is retained twice.
pub open spec fn keys_distinct(applied: Seq<AppliedCommand>) -> bool {
    forall|i: int, j: int|
        0 <= i < j < applied.len() ==> (#[trigger] applied[i]).command_id@
            != (#[trigger] applied[j]).command_id@
}

/// Registry well-formedness: valid bounds respected by every retained
/// collection, calls sorted by identifier, idempotency keys distinct.
pub open spec fn registry_wf(view: CallRegistryView) -> bool {
    &&& valid_config(view.config)
    &&& view.calls.len() <= view.config.max_calls
    &&& view.events.len() <= view.config.max_pending_events
    &&& view.history.len() <= view.config.max_pending_events
    &&& view.audit.len() <= view.config.max_pending_events
    &&& view.applied.len() <= view.config.max_command_keys
    &&& sorted_calls(view.calls)
    &&& keys_distinct(view.applied)
    &&& history_ids_issued(view.history, view.next_event_sequence)
}

/// What a settled selection does to the registry: an error leaves it as it
/// was; a selection is retained, with the direction, as the call's media.
pub open spec fn negotiation_applied(
    before: CallRegistryView,
    after: CallRegistryView,
    index: int,
    selection: Result<AudioSelection, ApiError>,
    direction: Direction,
    result: Result<NegotiatedAudio, ApiError>,
) -> bool {
    match selection {
        Err(error) => result == Err::<NegotiatedAudio, ApiError>(error) && after == before,
        Ok(chosen) => {
            &&& result == Ok::<NegotiatedAudio, ApiError>(negotiated(chosen, direction))
            &&& after == (CallRegistryView {
                calls: before.calls.update(
                    index,
                    CallSnapshot { media: Some(negotiated(chosen, direction)), ..before.calls[index] },
                ),
                ..before
            })
        },
    }
}

/// The error reported when the pending queue or the event sequence cannot
/// take another event.
pub open spec fn event_capacity_error(view: CallRegistryView) -> Option<ApiError> {
    if view.events.len() >= view.config.max_pending_events {
        Some(ApiError::EventQueueFull)
    } else if view.next_event_sequence == u64::MAX {
        Some(ApiError::IdentifierExhausted)
    } else {
        None
    }
}

/// The most recent `max` events of a history.
pub open spec fn retain_recent(history: Seq<LifecycleEvent>, max: usize) -> Seq<LifecycleEvent> {
    if history.len() > max {
        history.skip(history.len() - max)
    } else {
        history
    }
}

/// `event` is the next lifecycle event: it carries the next event sequence,
/// the call and kind, joins the pending queue and the bounded replay history,
/// and advances the event counters.
pub open spec fn emitted(
    before: CallRegistryView,
    after: CallRegistryView,
    event: LifecycleEvent,
    call: Seq<char>,
    kind: CallEventKind,
) -> bool {
    &&& event.event_id@ == event_text(before.next_event_sequence)
    &&& event.call_id@ == call
    &&& event.kind == kind
    &&& after.events == before.events.push(event)
    &&& after.history == retain_recent(before.history.push(event), before.config.max_pending_events)
    &&& after.next_event_sequence == before.next_event_sequence + 1
    &&& after.events_total == bump(before.events_total)
}

/// Everything but the call table, the event queues and their counters is
/// unchanged.
pub open spec fn keeps_bookkeeping(before: CallRegistryView, after: CallRegistryView) -> bool {
    &&& after.config == before.config
    &&& after.applied == before.applied
    &&& after.audit == before.audit
    &&& after.next_audit_sequence == before.next_audit_sequence
}

/// What `apply` does: an unknown call, a command whose target is the current
/// state, a full event queue and an edge the lifecycle forbids are refused
/// in that order without any change; otherwise the call moves to the
/// command's target state, its counter advances and one event is emitted.
pub open spec fn apply_post(
    before: CallRegistryView,
    id: Seq<char>,
    command: CallCommand,
    result: Result<Option<LifecycleEvent>, ApiError>,
    after: CallRegistryView,
) -> bool {
    if !has_call(before.calls, id) {
        result == Err::<Option<LifecycleEvent>, ApiError>(ApiError::UnknownCall) && after == before
    } else {
        let index = call_index(before.calls, id);
        let state = before.calls[index].state;
        let (next, kind) = command_target(command);
        if next == state {
            result == Err::<Option<LifecycleEvent>, ApiError>(
                ApiError::InvalidCommand { state, command },
            ) && after == before
        } else if event_capacity_error(before) is Some {
            result == Err::<Option<LifecycleEvent>, ApiError>(
                event_capacity_error(before)->Some_0,
            ) && after == before
        } else if !valid_transition(state, next) {
            result == Err::<Option<LifecycleEvent>, ApiError>(
                ApiError::InvalidCommand { state, command },
            ) && after == before
        } else {
            &&& result matches Ok(Some(event)) && emitted(before, after, event, id, kind)
            &&& after.calls == before.calls.update(
                index,
                CallSnapshot { state: next, ..before.calls[index] },
            )
            &&& after.answered == (if command == CallCommand::Answer {
                bump(before.answered)
            } else {
                before.answered
            })
            &&& after.failed == (if command == CallCommand::Fail {
                bump(before.failed)
            } else {
                before.failed
            })
            &&& after.completed == (if command == CallCommand::End {
                bump(before.completed)
            } else {
                before.completed
            })
            &&& after.started == before.started
            &&& after.next_call_sequence == before.next_call_sequence
            &&& keeps_bookkeeping(before, after)
        }
    }
}

/// What creating a call with a known identifier does once the identifier is
/// free: the call bound and a full event queue are refused without change;
/// otherwise a `Created` call joins the table in identifier order and one
/// `Created` event is emitted.
pub open spec fn create_post(
    before: CallRegistryView,
    id: CallId,
    result: Result<CallId, ApiError>,
    after: CallRegistryView,
) -> bool {
    if before.calls.len() >= before.config.max_calls {
        result == Err::<CallId, ApiError>(ApiError::CallLimitReached) && after == before
    } else if event_capacity_error(before) is Some {
        result == Err::<CallId, ApiError>(event_capacity_error(before)->Some_0) && after == before
    } else {
        created(before, after, id) && result == Ok::<CallId, ApiError>(id)
    }
}

/// `id` joined the call table as a new `Created` call with one `Created`
/// event.
pub open spec fn created(before: CallRegistryView, after: CallRegistryView, id: CallId) -> bool {
    &&& after.calls == before.calls.insert(
        call_insertion_point(before.calls, id@),
        CallSnapshot { id, state: CallState::Created, dialog_id: None, media: None },
    )
    &&& after.started == bump(before.started)
    &&& exists|event: LifecycleEvent| emitted(before, after, event, id@, CallEventKind::Created)
    &&& after.answered == before.answered
    &&& after.failed == before.failed
    &&& after.completed == before.completed
    &&& keeps_bookkeeping(before, after)
}

impl RegistryCore {
    /// Creates an empty registry with validated resource bounds.
    pub fn new(config: CallRegistryConfig) -> (result: Result<Self, ApiError>)
        ensures
            !valid_config(config) ==> result == Err::<Self, ApiError>(ApiError::InvalidConfig),
            valid_config(config) ==> (result matches Ok(registry) && registry@ == (
            CallRegistryView {
                config,
                calls: Seq::empty(),
                events: Seq::empty(),
                history: Seq::empty(),
                applied: Seq::empty(),
                audit: Seq::empty(),
                started: 0,
                answered: 0,
                failed: 0,
                completed: 0,
                events_total: 0,
                next_call_sequence: 1,
                next_event_sequence: 1,
                next_audit_sequence: 1,
            }) && registry_wf(registry@)),
    {
        let config = match config.validate() {
            Ok(config) => config,
            Err(error) => return Err(error),
        };
        Ok(
            RegistryCore {
                config,
                calls: Vec::new(),
                events: VecDeque::new(),
                event_history: VecDeque::new(),
                applied_commands: Vec::new(),
                audit_records: VecDeque::new(),
                calls_started_total: 0,
                calls_answered_total: 0,
                calls_failed_total: 0,
                calls_completed_total: 0,
                lifecycle_events_total: 0,
                next_call_sequence: 1,
                next_event_sequence: 1,
                next_audit_sequence: 1,
            },
        )
    }

    /// An empty registry with bounds that are known to be valid.
    fn vacant(config: CallRegistryConfig) -> (registry: Self)
        requires
            valid_config(config),
        ensures
            registry_wf(registry@),
    {
        RegistryCore {
            config,
            calls: Vec::new(),
            events: VecDeque::new(),
            event_history: VecDeque::new(),
            applied_commands: Vec::new(),
            audit_records: VecDeque::new(),
            calls_started_total: 0,
            calls_answered_total: 0,
            calls_failed_total: 0,
            calls_completed_total: 0,
            lifecycle_events_total: 0,
            next_call_sequence: 1,
            next_event_sequence: 1,
            next_audit_sequence: 1,
        }
    }

    /// Returns the configured resource bounds.
    pub fn config(&self) -> (config: CallRegistryConfig)
        ensures
            config == self@.config,
    {
        self.config
    }

    fn position(&self, id: &CallId) -> (index: Option<usize>)
        requires
            sorted_calls(self@.calls),
        ensures
            index is Some <==> has_call(self@.calls, id@),
            index matches Some(i) ==> i == call_index(self@.calls, id@) && i < self@.calls.len()
                && self@.calls[i as int].id@ == id@,
    {
        let mut i: usize = 0;
        while i < self.calls.len()
            invariant
                sorted_calls(self@.calls),
                i <= self.calls.len(),
                forall|j: int| 0 <= j < i ==> #[trigger] self@.calls[j].id@ != id@,
            decreases self.calls.len() - i,
        {
            if self.calls[i].id.same_as(id) {
                proof {
                    lemma_unique_call_index(self@.calls, id@, i as int);
                }
                return Some(i);
            }
            i = i + 1;
        }
        None
    }

    fn reserve_event_id(&self) -> (result: Result<EventId, ApiError>)
        ensures
            match event_capacity_error(self@) {
                Some(error) => result == Err::<EventId, ApiError>(error),
                None => result matches Ok(id) && id@ == event_text(self@.next_event_sequence),
            },
    {
        if self.events.len() >= self.config.max_pending_events {
            return Err(ApiError::EventQueueFull);
        }
        if self.next_event_sequence == u64::MAX {
            return Err(ApiError::IdentifierExhausted);
        }
        Ok(EventId::from_sequence(self.next_event_sequence))
    }

    fn commit_event(&mut self, event_id: EventId, call_id: CallId, kind: CallEventKind) -> (event:
        LifecycleEvent)
        requires
            old(self)@.next_event_sequence < u64::MAX,
            old(self)@.history.len() <= old(self)@.config.max_pending_events,
            event_id@ == event_text(old(self)@.next_event_sequence),
            history_ids_issued(old(self)@.history, old(self)@.next_event_sequence),
        ensures
            emitted(old(self)@, final(self)@, event, call_id@, kind),
            history_ids_issued(final(self)@.history, final(self)@.next_event_sequence),
            event.call_id == call_id,
            final(self)@.history.len() <= final(self)@.config.max_pending_events,
            final(self)@.calls == old(self)@.calls,
            final(self)@.started == old(self)@.started,
            final(self)@.answered == old(self)@.answered,
            final(self)@.failed == old(self)@.failed,
            final(self)@.completed == old(self)@.completed,
            final(self)@.next_call_sequence == old(self)@.next_call_sequence,
            keeps_bookkeeping(old(self)@, final(self)@),
    {
        self.next_event_sequence = self.next_event_sequence + 1;
        self.lifecycle_events_total = self.lifecycle_events_total.saturating_add(1);
        let event = LifecycleEvent { event_id, call_id, kind };
        self.events.push_back(event.clone());
        proof {
            lemma_history_after_emit(
                old(self)@.history,
                old(self)@.next_event_sequence,
                event,
                self.config.max_pending_events,
            );
        }
        self.event_history.push_back(event.clone());
        let ghost pushed = self.event_history@;
        if self.event_history.len() > self.config.max_pending_events {
            self.event_history.pop_front();
            proof {
                assert(self.event_history@ =~= pushed.skip(pushed.len() - self.config.max_pending_events));
            }
        }
        event
    }

    /// Allocates the first generated call identifier at or after the next
    /// sequence that no retained call uses.
    fn allocate_call_id(&mut self) -> (result: Result<CallId, ApiError>)
        requires
            sorted_calls(old(self)@.calls),
        ensures
            old(self)@.next_call_sequence <= final(self)@.next_call_sequence,
            final(self)@ == (CallRegistryView {
                next_call_sequence: final(self)@.next_call_sequence,
                ..old(self)@
            }),
            match result {
                Ok(id) => {
                    &&& old(self)@.next_call_sequence < final(self)@.next_call_sequence
                    &&& id@ == call_text((final(self)@.next_call_sequence - 1) as u64)
                    &&& !has_call(old(self)@.calls, id@)
                    &&& forall|s: u64|
                        old(self)@.next_call_sequence <= s < final(self)@.next_call_sequence - 1
                            ==> has_call(old(self)@.calls, #[trigger] call_text(s))
                },
                Err(error) => {
                    &&& error == ApiError::IdentifierExhausted
                    &&& final(self)@.next_call_sequence == u64::MAX
                    &&& forall|s: u64|
                        old(self)@.next_call_sequence <= s < u64::MAX ==> has_call(
                            old(self)@.calls,
                            #[trigger] call_text(s),
                        )
                },
            },
    {
        loop
            invariant
                sorted_calls(self@.calls),
                self@ == (CallRegistryView {
                    next_call_sequence: self@.next_call_sequence,
                    ..old(self)@
                }),
                old(self)@.next_call_sequence <= self@.next_call_sequence,
                forall|s: u64|
                    old(self)@.next_call_sequence <= s < self@.next_call_sequence ==> has_call(
                        old(self)@.calls,
                        #[trigger] call_text(s),
                    ),
            decreases u64::MAX - self.next_call_sequence,
        {
            let sequence = self.next_call_sequence;
            if sequence == u64::MAX {
                return Err(ApiError::IdentifierExhausted);
            }
            self.next_call_sequence = sequence + 1;
            let id = CallId::from_sequence(sequence);
            if self.position(&id).is_none() {
                return Ok(id);
            }
        }
    }

    fn insert_sorted(&mut self, snapshot: CallSnapshot)
        requires
            sorted_calls(old(self)@.calls),
            !has_call(old(self)@.calls, snapshot.id@),
        ensures
            sorted_calls(final(self)@.calls),
            final(self)@.calls == old(self)@.calls.insert(
                call_insertion_point(old(self)@.calls, snapshot.id@),
                snapshot,
            ),
            final(self)@ == (CallRegistryView { calls: final(self)@.calls, ..old(self)@ }),
            is_call_insertion_point(
                old(self)@.calls,
                snapshot.id@,
                call_insertion_point(old(self)@.calls, snapshot.id@),
            ),
    {
        let ghost before = self@.calls;
        let mut index: usize = 0;
        let new_text = snapshot.id.as_str();
        while index < self.calls.len()
            invariant
                sorted_calls(self@.calls),
                self@.calls == before,
                !has_call(self@.calls, snapshot.id@),
                new_text@ == snapshot.id@,
                is_ascii(new_text),
                index <= self.calls.len(),
                forall|j: int| 0 <= j < index ==> text_lt(#[trigger] self@.calls[j].id@, snapshot.id@),
            ensures
                index <= self.calls.len(),
                forall|j: int| 0 <= j < index ==> text_lt(#[trigger] self@.calls[j].id@, snapshot.id@),
                index < self.calls.len() ==> text_lt(snapshot.id@, self@.calls[index as int].id@),
            decreases self.calls.len() - index,
        {
            if text_less(new_text, self.calls[index].id.as_str()) {
                break;
            }
            proof {
                let other = self@.calls[index as int].id@;
                assert(other != snapshot.id@);
                lemma_text_order(other, snapshot.id@, other);
            }
            index = index + 1;
        }
        proof {
            assert forall|j: int| index <= j < before.len() implies text_lt(
                snapshot.id@,
                #[trigger] before[j].id@,
            ) by {
                if j > index {
                    lemma_text_order(snapshot.id@, before[index as int].id@, before[j].id@);
                }
            }
            lemma_call_insertion_point_unique(before, snapshot.id@, index as int);
            lemma_insert_sorted_call(before, snapshot, index as int);
        }
        self.calls.insert(index, snapshot);
    }

    fn insert_created_call(&mut self, id: CallId)
        requires
            sorted_calls(old(self)@.calls),
            !has_call(old(self)@.calls, id@),
        ensures
            sorted_calls(final(self)@.calls),
            final(self)@ == (CallRegistryView {
                calls: old(self)@.calls.insert(
                    call_insertion_point(old(self)@.calls, id@),
                    CallSnapshot { id, state: CallState::Created, dialog_id: None, media: None },
                ),
                started: bump(old(self)@.started),
                ..old(self)@
            }),
            is_call_insertion_point(
                old(self)@.calls,
                id@,
                call_insertion_point(old(self)@.calls, id@),
            ),
    {
        self.calls_started_total = self.calls_started_total.saturating_add(1);
        self.insert_sorted(CallSnapshot { id, state: CallState::Created, dialog_id: None, media: None });
    }

    /// Registers a generated application call identifier and emits `Created`.
    ///
    /// The identifier is `call_` and the first sequence number, counting up
    /// from the next unused one, that no retained call carries.
    pub fn create(&mut self) -> (result: Result<CallId, ApiError>)
        requires
            registry_wf(old(self)@),
        ensures
            registry_wf(final(self)@),
            ({
                let before = old(self)@;
                let after = final(self)@;
                if before.calls.len() >= before.config.max_calls {
                    result == Err::<CallId, ApiError>(ApiError::CallLimitReached) && after == before
                } else if event_capacity_error(before) is Some {
                    result == Err::<CallId, ApiError>(event_capacity_error(before)->Some_0)
                        && after == before
                } else {
                    match result {
                        Ok(id) => {
                            &&& before.next_call_sequence < after.next_call_sequence
                            &&& id@ == call_text((after.next_call_sequence - 1) as u64)
                            &&& !has_call(before.calls, id@)
                            &&& forall|s: u64|
                                before.next_call_sequence <= s < after.next_call_sequence - 1
                                    ==> has_call(before.calls, #[trigger] call_text(s))
                            &&& created(before, after, id)
                        },
                        Err(error) => {
                            &&& error == ApiError::IdentifierExhausted
                            &&& after == (CallRegistryView {
                                next_call_sequence: u64::MAX,
                                ..before
                            })
                            &&& forall|s: u64|
                                before.next_call_sequence <= s < u64::MAX ==> has_call(
                                    before.calls,
                                    #[trigger] call_text(s),
                                )
                        },
                    }
                }
            }),
    {
        let ghost start = self@;
        if self.calls.len() >= self.config.max_calls {
            return Err(ApiError::CallLimitReached);
        }
        let event_id = match self.reserve_event_id() {
            Ok(event_id) => event_id,
            Err(error) => return Err(error),
        };
        let id = match self.allocate_call_id() {
            Ok(id) => id,
            Err(error) => return Err(error),
        };
        let ghost allocated = self@;
        self.insert_created_call(id.clone());
        let event = self.commit_event(event_id, id.clone(), CallEventKind::Created);
        proof {
            lemma_insert_length(allocated.calls, call_insertion_point(allocated.calls, id@), id);
            assert(emitted(start, self@, event, id@, CallEventKind::Created));
        }
        Ok(id)
    }

    /// Registers a caller-supplied application identifier and emits `Created`.
    pub fn create_with_id(&mut self, id: CallId) -> (result: Result<CallId, ApiError>)
        requires
            registry_wf(old(self)@),
        ensures
            registry_wf(final(self)@),
            has_call(old(self)@.calls, id@) ==> result == Err::<CallId, ApiError>(
                ApiError::DuplicateCall,
            ) && final(self)@ == old(self)@,
            !has_call(old(self)@.calls, id@) ==> create_post(old(self)@, id, result, final(self)@),
    {
        if self.position(&id).is_some() {
            return Err(ApiError::DuplicateCall);
        }
        if self.calls.len() >= self.config.max_calls {
            return Err(ApiError::CallLimitReached);
        }
        let event_id = match self.reserve_event_id() {
            Ok(event_id) => event_id,
            Err(error) => return Err(error),
        };
        let ghost before = self@;
        self.insert_created_call(id.clone());
        let event = self.commit_event(event_id, id.clone(), CallEventKind::Created);
        proof {
            lemma_insert_length(before.calls, call_insertion_point(before.calls, id@), id);
            assert(emitted(before, self@, event, id@, CallEventKind::Created));
        }
        Ok(id)
    }

    /// Applies one lifecycle command and emits its event.
    pub fn apply(&mut self, id: &CallId, command: CallCommand) -> (result: Result<
        Option<LifecycleEvent>,
        ApiError,
    >)
        requires
            registry_wf(old(self)@),
        ensures
            registry_wf(final(self)@),
            apply_post(old(self)@, id@, command, result, final(self)@),
    {
        let index = match self.position(id) {
            Some(index) => index,
            None => return Err(ApiError::UnknownCall),
        };
        let state = self.calls[index].state;
        let (next_state, kind) = command_transition(command);
        if next_state == state {
            return Err(ApiError::InvalidCommand { state, command });
        }
        let event_id = match self.reserve_event_id() {
            Ok(event_id) => event_id,
            Err(error) => return Err(error),
        };
        if !is_valid_transition(state, next_state) {
            return Err(ApiError::InvalidCommand { state, command });
        }
        let ghost before = self@;
        let current = &self.calls[index];
        let updated = CallSnapshot {
            id: current.id.clone(),
            state: next_state,
            dialog_id: match &current.dialog_id {
                Some(dialog) => Some(dialog.clone()),
                None => None,
            },
            media: clone_media(&current.media),
        };
        proof {
            lemma_update_sorted_call(self@.calls, index as int, updated);
        }
        self.calls.set(index, updated);
        match command {
            CallCommand::Answer => {
                self.calls_answered_total = self.calls_answered_total.saturating_add(1);
            },
            CallCommand::Fail => {
                self.calls_failed_total = self.calls_failed_total.saturating_add(1);
            },
            CallCommand::End => {
                self.calls_completed_total = self.calls_completed_total.saturating_add(1);
            },
            _ => {},
        }
        let event = self.commit_event(event_id, id.clone(), kind);
        proof {
            assert(updated == CallSnapshot { state: next_state, ..before.calls[index as int] });
        }
        Ok(Some(event))
    }
}

pub open spec fn is_call_insertion_point(calls: Seq<CallSnapshot>, id: Seq<char>, i: int) -> bool {
    &&& 0 <= i <= calls.len()
    &&& forall|j: int| 0 <= j < i ==> text_lt(#[trigger] calls[j].id@, id)
    &&& forall|j: int| i <= j < calls.len() ==> text_lt(id, #[trigger] calls[j].id@)
}

/// Where a new identifier goes among calls sorted by identifier.
pub open spec fn call_insertion_point(calls: Seq<CallSnapshot>, id: Seq<char>) -> int {
    choose|i: int| is_call_insertion_point(calls, id, i)
}

proof fn lemma_call_insertion_point_unique(calls: Seq<CallSnapshot>, id: Seq<char>, i: int)
    requires
        is_call_insertion_point(calls, id, i),
    ensures
        call_insertion_point(calls, id) == i,
{
    let k = call_insertion_point(calls, id);
    assert(is_call_insertion_point(calls, id, k));
    if k < i {
        lemma_text_order(calls[k].id@, id, calls[k].id@);
    } else if i < k {
        lemma_text_order(calls[i].id@, id, calls[i].id@);
    }
}

proof fn lemma_insert_sorted_call(calls: Seq<CallSnapshot>, snapshot: CallSnapshot, i: int)
    requires
        sorted_calls(calls),
        is_call_insertion_point(calls, snapshot.id@, i),
    ensures
        sorted_calls(calls.insert(i, snapshot)),
{
    let result = calls.insert(i, snapshot);
    assert forall|a: int, b: int| 0 <= a < b < result.len() implies text_lt(
        #[trigger] result[a].id@,
        #[trigger] result[b].id@,
    ) by {
        if b < i {
            assert(result[a] == calls[a] && result[b] == calls[b]);
        } else if b == i {
            assert(result[a] == calls[a]);
        } else if a == i {
            assert(result[b] == calls[b - 1]);
        } else if a < i {
            assert(result[a] == calls[a] && result[b] == calls[b - 1]);
        } else {
            assert(result[a] == calls[a - 1] && result[b] == calls[b - 1]);
        }
    }
}

proof fn lemma_insert_length(calls: Seq<CallSnapshot>, i: int, id: CallId)
    requires
        0 <= i <= calls.len(),
    ensures
        calls.insert(i, CallSnapshot { id, state: CallState::Created, dialog_id: None, media: None }).len()
            == calls.len() + 1,
{
}

proof fn lemma_update_sorted_call(calls: Seq<CallSnapshot>, i: int, updated: CallSnapshot)
    requires
        sorted_calls(calls),
        0 <= i < calls.len(),
        updated.id == calls[i].id,
    ensures
        sorted_calls(calls.update(i, updated)),
{
    let result = calls.update(i, updated);
    assert forall|a: int, b: int| 0 <= a < b < result.len() implies text_lt(
        #[trigger] result[a].id@,
        #[trigger] result[b].id@,
    ) by {
        assert(result[a].id == calls[a].id && result[b].id == calls[b].id);
    }
}

proof fn lemma_remove_sorted_call(calls: Seq<CallSnapshot>, i: int)
    requires
        sorted_calls(calls),
        0 <= i < calls.len(),
    ensures
        sorted_calls(calls.remove(i)),
{
    let result = calls.remove(i);
    assert forall|a: int, b: int| 0 <= a < b < result.len() implies text_lt(
        #[trigger] result[a].id@,
        #[trigger] result[b].id@,
    ) by {
        let oa = if a < i {
            a
        } else {
            a + 1
        };
        let ob = if b < i {
            b
        } else {
            b + 1
        };
        assert(result[a] == calls[oa] && result[b] == calls[ob]);
    }
}

proof fn lemma_unique_call_index(calls: Seq<CallSnapshot>, id: Seq<char>, i: int)
    requires
        sorted_calls(calls),
        0 <= i < calls.len(),
        calls[i].id@ == id,
    ensures
        call_index(calls, id) == i,
{
    let k = call_index(calls, id);
    assert(0 <= k < calls.len() && calls[k].id@ == id);
    if k < i {
        assert(text_lt(calls[k].id@, calls[i].id@));
        lemma_text_order(id, id, id);
    } else if i < k {
        assert(text_lt(calls[i].id@, calls[k].id@));
        lemma_text_order(id, id, id);
    }
}

/// The retained idempotency keys after remembering one more, evicting the
/// oldest when the bound is reached.
pub open spec fn remember(applied: Seq<AppliedCommand>, entry: AppliedCommand, max: usize) -> Seq<
    AppliedCommand,
> {
    if applied.len() >= max {
        applied.remove(0).push(entry)
    } else {
        applied.push(entry)
    }
}

pub open spec fn has_key(applied: Seq<AppliedCommand>, key: Seq<char>) -> bool {
    exists|i: int| 0 <= i < applied.len() && #[trigger] applied[i].command_id@ == key
}

/// The position of a retained idempotency key.
pub open spec fn key_index(applied: Seq<AppliedCommand>, key: Seq<char>) -> int {
    choose|i: int| 0 <= i < applied.len() && #[trigger] applied[i].command_id@ == key
}

/// What `apply_idempotent` does. A retained key replays its recorded event
/// for the same call and command, and is a conflict for any other; neither
/// changes anything. A fresh key applies the command as `apply` does and, on
/// success, remembers the key with its call, command and event.
pub open spec fn apply_idempotent_post(
    before: CallRegistryView,
    id: CallId,
    command: CallCommand,
    key: CommandId,
    result: Result<CommandResult, ApiError>,
    after: CallRegistryView,
) -> bool {
    if has_key(before.applied, key@) {
        let entry = before.applied[key_index(before.applied, key@)];
        if entry.call_id@ != id@ || entry.command != command {
            result == Err::<CommandResult, ApiError>(ApiError::IdempotencyConflict) && after == before
        } else {
            result == Ok::<CommandResult, ApiError>(
                CommandResult { event: entry.event, replayed: true },
            ) && after == before
        }
    } else {
        match result {
            Err(error) => apply_post(before, id@, command, Err(error), after),
            Ok(outcome) => {
                &&& !outcome.replayed
                &&& apply_post(
                    before,
                    id@,
                    command,
                    Ok(outcome.event),
                    CallRegistryView { applied: before.applied, ..after },
                )
                &&& after.applied == remember(
                    before.applied,
                    AppliedCommand { command_id: key, call_id: id, command, event: outcome.event },
                    before.config.max_command_keys,
                )
            },
        }
    }
}

/// The audit records kept when one more is appended: the oldest is evicted
/// once the bound is reached.
pub open spec fn audit_kept(audit: Seq<AuditRecord>, max: usize) -> Seq<AuditRecord> {
    if audit.len() >= max {
        audit.subrange(1, audit.len() as int)
    } else {
        audit
    }
}

/// `after` is `before` with one more audit record for the principal, call and
/// operation, carrying the next audit sequence.
pub open spec fn audited(
    before: CallRegistryView,
    after: CallRegistryView,
    principal: Seq<char>,
    call: Option<CallId>,
    operation: AuditOperation,
) -> bool {
    let kept = audit_kept(before.audit, before.config.max_pending_events);
    let record = after.audit.last();
    &&& after.audit.len() == kept.len() + 1
    &&& after.audit.drop_last() == kept
    &&& record.sequence == before.next_audit_sequence
    &&& record.principal_id@ == principal
    &&& record.call_id == call
    &&& record.operation == operation
    &&& after == (CallRegistryView {
        audit: after.audit,
        next_audit_sequence: bump(before.next_audit_sequence),
        ..before
    })
}

/// The registry as it was before its last audit record was added.
pub open spec fn before_audit(before: CallRegistryView, after: CallRegistryView) -> CallRegistryView {
    CallRegistryView {
        audit: before.audit,
        next_audit_sequence: before.next_audit_sequence,
        ..after
    }
}

pub open spec fn unit_result<T>(result: Result<T, ApiError>) -> Result<(), ApiError> {
    match result {
        Ok(_) => Ok(()),
        Err(error) => Err(error),
    }
}

/// What `apply_authorized` does: a principal without the command's
/// permission is refused before the call is looked up, and nothing but the
/// audit trail changes; otherwise the command is applied as `apply` does.
/// Either way one audit record reports the outcome.
pub open spec fn apply_authorized_post(
    before: CallRegistryView,
    principal: PrincipalView,
    id: CallId,
    command: CallCommand,
    result: Result<Option<LifecycleEvent>, ApiError>,
    after: CallRegistryView,
) -> bool {
    let inner = before_audit(before, after);
    &&& audited(
        inner,
        after,
        principal.id,
        Some(id),
        AuditOperation::ApplyCommand { command, idempotent: false },
    )
    &&& if !permits(principal, command) {
        result == Err::<Option<LifecycleEvent>, ApiError>(
            ApiError::PermissionDenied { command, permission: command_permission(command) },
        ) && inner == before
    } else {
        apply_post(before, id@, command, result, inner)
    }
    &&& outcome_reports(after.audit.last().outcome, unit_result(result), false)
}

/// What `apply_idempotent_authorized` does: authorization precedes the key
/// lookup, so an unauthorized retry neither replays nor probes the key.
pub open spec fn apply_idempotent_authorized_post(
    before: CallRegistryView,
    principal: PrincipalView,
    id: CallId,
    command: CallCommand,
    key: CommandId,
    result: Result<CommandResult, ApiError>,
    after: CallRegistryView,
) -> bool {
    let inner = before_audit(before, after);
    &&& audited(
        inner,
        after,
        principal.id,
        Some(id),
        AuditOperation::ApplyCommand { command, idempotent: true },
    )
    &&& if !permits(principal, command) {
        result == Err::<CommandResult, ApiError>(
            ApiError::PermissionDenied { command, permission: command_permission(command) },
        ) && inner == before
    } else {
        apply_idempotent_post(before, id, command, key, result, inner)
    }
    &&& outcome_reports(
        after.audit.last().outcome,
        unit_result(result),
        result matches Ok(outcome) && outcome.replayed,
    )
}

/// What `remove_terminal` does: only an `Ended` or `Failed` call is removed,
/// and its last snapshot is returned.
pub open spec fn remove_terminal_post(
    before: CallRegistryView,
    id: Seq<char>,
    result: Result<CallSnapshot, ApiError>,
    after: CallRegistryView,
) -> bool {
    if !has_call(before.calls, id) {
        result == Err::<CallSnapshot, ApiError>(ApiError::UnknownCall) && after == before
    } else {
        let index = call_index(before.calls, id);
        let call = before.calls[index];
        if call.state != CallState::Ended && call.state != CallState::Failed {
            result == Err::<CallSnapshot, ApiError>(
                ApiError::InvalidCommand { state: call.state, command: CallCommand::End },
            ) && after == before
        } else {
            result == Ok::<CallSnapshot, ApiError>(call) && after == (CallRegistryView {
                calls: before.calls.remove(index),
                ..before
            })
        }
    }
}

/// The number of retained calls that are neither `Ended` nor `Failed`.
pub open spec fn count_active(calls: Seq<CallSnapshot>) -> nat
    decreases calls.len(),
{
    if calls.len() == 0 {
        0
    } else {
        count_active(calls.drop_last()) + if calls.last().state == CallState::Ended
            || calls.last().state == CallState::Failed {
            0nat
        } else {
            1nat
        }
    }
}

/// `i` is the first retained event carrying the cursor identifier.
pub open spec fn is_first_event(history: Seq<LifecycleEvent>, cursor: Seq<char>, i: int) -> bool {
    &&& 0 <= i < history.len()
    &&& history[i].event_id@ == cursor
    &&& forall|j: int| 0 <= j < i ==> #[trigger] history[j].event_id@ != cursor
}

/// Whether an event carrying the cursor identifier is retained.
pub open spec fn retains_event(history: Seq<LifecycleEvent>, cursor: Seq<char>) -> bool {
    exists|i: int| #[trigger] is_first_event(history, cursor, i)
}

/// The position of the first retained event carrying the cursor identifier.
pub open spec fn first_event_index(history: Seq<LifecycleEvent>, cursor: Seq<char>) -> int {
    choose|i: int| #[trigger] is_first_event(history, cursor, i)
}

/// Where replay starts after an optional exclusive cursor; `None` when the
/// cursor is no longer retained.
pub open spec fn replay_start(history: Seq<LifecycleEvent>, cursor: Option<Seq<char>>) -> Option<int> {
    match cursor {
        None => Some(0),
        Some(c) => if retains_event(history, c) {
            Some(first_event_index(history, c) + 1)
        } else {
            None
        },
    }
}

/// What `drain_events` does: a zero limit is refused; otherwise up to
/// `limit` pending events leave the queue, oldest first, and nothing else
/// changes, the replay history included.
pub open spec fn drain_events_post(
    before: CallRegistryView,
    limit: usize,
    result: Result<Vec<LifecycleEvent>, ApiError>,
    after: CallRegistryView,
) -> bool {
    if limit == 0 {
        result == Err::<Vec<LifecycleEvent>, ApiError>(ApiError::InvalidLimit) && after == before
    } else {
        result matches Ok(events) && events@ == bounded_take(before.events, limit) && after == (
        CallRegistryView { events: before.events.skip(events@.len() as int), ..before })
    }
}

pub open spec fn bounded_take<T>(items: Seq<T>, limit: usize) -> Seq<T> {
    items.take(
        if limit < items.len() {
            limit as int
        } else {
            items.len() as int
        },
    )
}

pub open spec fn cursor_text(cursor: Option<&EventId>) -> Option<Seq<char>> {
    match cursor {
        Some(id) => Some(id@),
        None => None,
    }
}

pub open spec fn call_of(id: Option<&CallId>) -> Option<CallId> {
    match id {
        Some(id) => Some(*id),
        None => None,
    }
}

impl RegistryCore {
    fn find_key(&self, key: &CommandId) -> (index: Option<usize>)
        requires
            keys_distinct(self@.applied),
        ensures
            index is Some <==> has_key(self@.applied, key@),
            index matches Some(i) ==> i == key_index(self@.applied, key@) && i < self@.applied.len(),
    {
        let mut i: usize = 0;
        while i < self.applied_commands.len()
            invariant
                keys_distinct(self@.applied),
                i <= self.applied_commands.len(),
                forall|j: int| 0 <= j < i ==> #[trigger] self@.applied[j].command_id@ != key@,
            decreases self.applied_commands.len() - i,
        {
            if self.applied_commands[i].command_id.same_as(key) {
                proof {
                    lemma_unique_key_index(self@.applied, key@, i as int);
                }
                return Some(i);
            }
            i = i + 1;
        }
        None
    }

    /// Applies a command exactly once for a bounded idempotency key.
    ///
    /// A retry with the same key and identical call/command returns the
    /// original result without mutating state or emitting a duplicate event.
    /// Reusing a retained key for a different call or command is rejected.
    pub fn apply_idempotent(&mut self, id: &CallId, command: CallCommand, command_id: CommandId) -> (result:
        Result<CommandResult, ApiError>)
        requires
            registry_wf(old(self)@),
        ensures
            registry_wf(final(self)@),
            apply_idempotent_post(old(self)@, *id, command, command_id, result, final(self)@),
    {
        match self.find_key(&command_id) {
            Some(index) => {
                let entry = &self.applied_commands[index];
                if !entry.call_id.same_as(id) || entry.command != command {
                    return Err(ApiError::IdempotencyConflict);
                }
                return Ok(CommandResult { event: clone_event(&entry.event), replayed: true });
            },
            None => {},
        }
        let ghost before = self@;
        let event = match self.apply(id, command) {
            Ok(event) => event,
            Err(error) => return Err(error),
        };
        let ghost applied = self@;
        let entry = AppliedCommand {
            command_id,
            call_id: id.clone(),
            command,
            event: clone_event(&event),
        };
        if self.applied_commands.len() >= self.config.max_command_keys {
            self.applied_commands.remove(0);
        }
        self.applied_commands.push(entry);
        proof {
            let kept = if before.applied.len() >= before.config.max_command_keys {
                before.applied.remove(0)
            } else {
                before.applied
            };
            assert forall|a: int, b: int| 0 <= a < b < self@.applied.len() implies (
            #[trigger] self@.applied[a]).command_id@ != (#[trigger] self@.applied[b]).command_id@ by {
                if b == self@.applied.len() - 1 {
                    assert(self@.applied[a] == kept[a]);
                    if before.applied.len() >= before.config.max_command_keys {
                        assert(kept[a] == before.applied[a + 1]);
                    }
                } else if before.applied.len() >= before.config.max_command_keys {
                    assert(self@.applied[a] == before.applied[a + 1]);
                    assert(self@.applied[b] == before.applied[b + 1]);
                } else {
                    assert(self@.applied[a] == before.applied[a]);
                    assert(self@.applied[b] == before.applied[b]);
                }
            }
            assert(CallRegistryView { applied: before.applied, ..self@ } == applied);
        }
        Ok(CommandResult { event, replayed: false })
    }

    /// Records a control-plane operation performed by an integrating engine.
    ///
    /// The record is bounded by `max_pending_events`; the oldest record is
    /// evicted when the bound is reached so audit traffic cannot block call
    /// handling or grow memory without limit. The principal contributes only
    /// its verified, non-secret identifier.
    pub fn record_audit(
        &mut self,
        principal: &AuthenticatedPrincipal,
        call_id: Option<&CallId>,
        operation: AuditOperation,
        outcome: AuditOutcome,
    )
        requires
            registry_wf(old(self)@),
        ensures
            registry_wf(final(self)@),
            audited(old(self)@, final(self)@, principal@.id, call_of(call_id), operation),
            final(self)@.audit.last().outcome == outcome,
    {
        let ghost before = self@;
        if self.audit_records.len() >= self.config.max_pending_events {
            self.audit_records.pop_front();
        }
        let sequence = self.next_audit_sequence;
        self.next_audit_sequence = self.next_audit_sequence.saturating_add(1);
        let call = match call_id {
            Some(id) => Some(id.clone()),
            None => None,
        };
        self.audit_records.push_back(
            AuditRecord {
                sequence,
                principal_id: principal.id.clone(),
                call_id: call,
                operation,
                outcome,
            },
        );
        proof {
            assert(self@.audit.drop_last() =~= audit_kept(before.audit, before.config.max_pending_events));
        }
    }

    fn record_result(
        &mut self,
        principal: &AuthenticatedPrincipal,
        call_id: &CallId,
        operation: AuditOperation,
        result: Result<(), ApiError>,
        replayed: bool,
    )
        requires
            registry_wf(old(self)@),
        ensures
            registry_wf(final(self)@),
            audited(old(self)@, final(self)@, principal@.id, Some(*call_id), operation),
            outcome_reports(final(self)@.audit.last().outcome, result, replayed),
    {
        let outcome = match result {
            Ok(()) => if replayed {
                AuditOutcome::Replayed
            } else {
                AuditOutcome::Succeeded
            },
            Err(error) => AuditOutcome::Rejected(error.code()),
        };
        self.record_audit(principal, Some(call_id), operation, outcome);
    }

    /// Applies one lifecycle command after verifying the caller's permission.
    ///
    /// Authorization is checked before call lookup so a caller without the
    /// required permission cannot use this method to probe call existence.
    pub fn apply_authorized(
        &mut self,
        principal: &AuthenticatedPrincipal,
        id: &CallId,
        command: CallCommand,
    ) -> (result: Result<Option<LifecycleEvent>, ApiError>)
        requires
            registry_wf(old(self)@),
        ensures
            registry_wf(final(self)@),
            apply_authorized_post(old(self)@, principal@, *id, command, result, final(self)@),
    {
        let operation = AuditOperation::ApplyCommand { command, idempotent: false };
        if let Err(error) = principal.authorize(command) {
            self.record_result(principal, id, operation, Err(error), false);
            return Err(error);
        }
        let result = self.apply(id, command);
        let summary = match &result {
            Ok(_) => Ok(()),
            Err(error) => Err(*error),
        };
        self.record_result(principal, id, operation, summary, false);
        result
    }

    /// Applies an idempotent lifecycle command after verifying permission.
    ///
    /// Authorization precedes idempotency lookup, so an unauthorized retry
    /// cannot replay a retained event or probe its key's history.
    pub fn apply_idempotent_authorized(
        &mut self,
        principal: &AuthenticatedPrincipal,
        id: &CallId,
        command: CallCommand,
        command_id: CommandId,
    ) -> (result: Result<CommandResult, ApiError>)
        requires
            registry_wf(old(self)@),
        ensures
            registry_wf(final(self)@),
            apply_idempotent_authorized_post(
                old(self)@,
                principal@,
                *id,
                command,
                command_id,
                result,
                final(self)@,
            ),
    {
        let operation = AuditOperation::ApplyCommand { command, idempotent: true };
        if let Err(error) = principal.authorize(command) {
            self.record_result(principal, id, operation, Err(error), false);
            return Err(error);
        }
        let result = self.apply_idempotent(id, command, command_id);
        let (summary, replayed) = match &result {
            Ok(outcome) => (Ok(()), outcome.replayed),
            Err(error) => (Err(*error), false),
        };
        self.record_result(principal, id, operation, summary, replayed);
        result
    }

    /// Associates a tag-qualified SIP dialog with a call exactly once.
    pub fn bind_dialog(&mut self, id: &CallId, dialog_id: DialogId) -> (result: Result<(), ApiError>)
        requires
            registry_wf(old(self)@),
        ensures
            registry_wf(final(self)@),
            ({
                let before = old(self)@;
                let after = final(self)@;
                if !has_call(before.calls, id@) {
                    result == Err::<(), ApiError>(ApiError::UnknownCall) && after == before
                } else {
                    let index = call_index(before.calls, id@);
                    if before.calls[index].dialog_id is Some {
                        result == Err::<(), ApiError>(ApiError::DialogAlreadyBound) && after == before
                    } else {
                        result == Ok::<(), ApiError>(()) && after == (CallRegistryView {
                            calls: before.calls.update(
                                index,
                                CallSnapshot { dialog_id: Some(dialog_id), ..before.calls[index] },
                            ),
                            ..before
                        })
                    }
                }
            }),
    {
        let index = match self.position(id) {
            Some(index) => index,
            None => return Err(ApiError::UnknownCall),
        };
        if self.calls[index].dialog_id.is_some() {
            return Err(ApiError::DialogAlreadyBound);
        }
        let updated = CallSnapshot {
            id: self.calls[index].id.clone(),
            state: self.calls[index].state,
            dialog_id: Some(dialog_id),
            media: clone_media(&self.calls[index].media),
        };
        proof {
            lemma_update_sorted_call(self@.calls, index as int, updated);
        }
        self.calls.set(index, updated);
        Ok(())
    }

    /// Settles the call's audio offer/answer and retains the result; the
    /// direction is the one the two first audio sections negotiate. A failed
    /// negotiation keeps the binding already retained.
    pub fn negotiate_audio(
        &mut self,
        id: &CallId,
        local: &[MediaSection],
        remote: &[MediaSection],
        remote_session_connection: &Option<String>,
        direction: Direction,
    ) -> (result: Result<NegotiatedAudio, ApiError>)
        requires
            registry_wf(old(self)@),
        ensures
            registry_wf(final(self)@),
            ({
                let before = old(self)@;
                let after = final(self)@;
                if !has_call(before.calls, id@) {
                    result == Err::<NegotiatedAudio, ApiError>(ApiError::UnknownCall) && after
                        == before
                } else {
                    exists|selection: Result<AudioSelection, ApiError>|
                        #[trigger] selects(local@, remote@, *remote_session_connection, selection)
                            && negotiation_applied(
                            before,
                            after,
                            call_index(before.calls, id@),
                            selection,
                            direction,
                            result,
                        )
                }
            }),
    {
        let index = match self.position(id) {
            Some(index) => index,
            None => return Err(ApiError::UnknownCall),
        };
        let selection = select_audio(local, remote, remote_session_connection);
        let ghost chosen = selection;
        assert(selects(local@, remote@, *remote_session_connection, chosen));
        match selection {
            Err(error) => Err(error),
            Ok(selected) => {
                let audio = into_negotiated(selected, direction);
                let current = &self.calls[index];
                let updated = CallSnapshot {
                    id: current.id.clone(),
                    state: current.state,
                    dialog_id: match &current.dialog_id {
                        Some(dialog) => Some(dialog.clone()),
                        None => None,
                    },
                    media: Some(audio.clone()),
                };
                proof {
                    lemma_update_sorted_call(self@.calls, index as int, updated);
                }
                self.calls.set(index, updated);
                Ok(audio)
            },
        }
    }

    /// Returns the retained audio negotiation for one call, if present.
    pub fn media(&self, id: &CallId) -> (result: Result<Option<NegotiatedAudio>, ApiError>)
        requires
            registry_wf(self@),
        ensures
            has_call(self@.calls, id@) ==> result == Ok::<Option<NegotiatedAudio>, ApiError>(
                self@.calls[call_index(self@.calls, id@)].media,
            ),
            !has_call(self@.calls, id@) ==> result == Err::<Option<NegotiatedAudio>, ApiError>(
                ApiError::UnknownCall,
            ),
    {
        match self.position(id) {
            Some(index) => Ok(clone_media(&self.calls[index].media)),
            None => Err(ApiError::UnknownCall),
        }
    }

    /// Returns a stable snapshot of one call.
    pub fn snapshot(&self, id: &CallId) -> (result: Result<CallSnapshot, ApiError>)
        requires
            registry_wf(self@),
        ensures
            has_call(self@.calls, id@) ==> result == Ok::<CallSnapshot, ApiError>(
                self@.calls[call_index(self@.calls, id@)],
            ),
            !has_call(self@.calls, id@) ==> result == Err::<CallSnapshot, ApiError>(
                ApiError::UnknownCall,
            ),
    {
        match self.position(id) {
            Some(index) => Ok(self.calls[index].clone()),
            None => Err(ApiError::UnknownCall),
        }
    }

    /// Returns a call snapshot after verifying read permission.
    pub fn snapshot_authorized(&self, principal: &AuthenticatedPrincipal, id: &CallId) -> (result:
        Result<CallSnapshot, ApiError>)
        requires
            registry_wf(self@),
        ensures
            !permits_read(principal@) ==> result == Err::<CallSnapshot, ApiError>(
                ApiError::ReadPermissionDenied,
            ),
            permits_read(principal@) && has_call(self@.calls, id@) ==> result == Ok::<
                CallSnapshot,
                ApiError,
            >(self@.calls[call_index(self@.calls, id@)]),
            permits_read(principal@) && !has_call(self@.calls, id@) ==> result == Err::<
                CallSnapshot,
                ApiError,
            >(ApiError::UnknownCall),
    {
        if let Err(error) = principal.authorize_read() {
            return Err(error);
        }
        self.snapshot(id)
    }

    /// Returns up to `limit` snapshots in deterministic identifier order.
    pub fn list(&self, limit: usize) -> (result: Result<Vec<CallSnapshot>, ApiError>)
        ensures
            limit == 0 ==> result == Err::<Vec<CallSnapshot>, ApiError>(ApiError::InvalidLimit),
            limit > 0 ==> (result matches Ok(snapshots) && snapshots@ == bounded_take(
                self@.calls,
                limit,
            )),
    {
        if limit == 0 {
            return Err(ApiError::InvalidLimit);
        }
        let count = if limit < self.calls.len() {
            limit
        } else {
            self.calls.len()
        };
        let mut snapshots: Vec<CallSnapshot> = Vec::new();
        let mut i: usize = 0;
        while i < count
            invariant
                count <= self.calls.len(),
                i <= count,
                snapshots@ == self@.calls.take(i as int),
            decreases count - i,
        {
            snapshots.push(self.calls[i].clone());
            proof {
                assert(self@.calls.take(i + 1) == self@.calls.take(i as int).push(
                    self@.calls[i as int],
                ));
            }
            i = i + 1;
        }
        Ok(snapshots)
    }

    /// Lists call snapshots after verifying read permission.
    pub fn list_authorized(&self, principal: &AuthenticatedPrincipal, limit: usize) -> (result:
        Result<Vec<CallSnapshot>, ApiError>)
        ensures
            !permits_read(principal@) ==> result == Err::<Vec<CallSnapshot>, ApiError>(
                ApiError::ReadPermissionDenied,
            ),
            permits_read(principal@) && limit == 0 ==> result == Err::<Vec<CallSnapshot>, ApiError>(
                ApiError::InvalidLimit,
            ),
            permits_read(principal@) && limit > 0 ==> (result matches Ok(snapshots) && snapshots@
                == bounded_take(self@.calls, limit)),
    {
        if let Err(error) = principal.authorize_read() {
            return Err(error);
        }
        self.list(limit)
    }

    /// Returns the number of events waiting to be delivered.
    pub fn pending_events(&self) -> (count: usize)
        ensures
            count == self@.events.len(),
    {
        self.events.len()
    }

    /// Returns the number of audit records waiting to be drained.
    pub fn pending_audit_records(&self) -> (count: usize)
        ensures
            count == self@.audit.len(),
    {
        self.audit_records.len()
    }

    /// Drains up to `limit` lifecycle events in emission order. They stay in
    /// the replay history.
    pub fn drain_events(&mut self, limit: usize) -> (result: Result<Vec<LifecycleEvent>, ApiError>)
        requires
            registry_wf(old(self)@),
        ensures
            registry_wf(final(self)@),
            drain_events_post(old(self)@, limit, result, final(self)@),
    {
        if limit == 0 {
            return Err(ApiError::InvalidLimit);
        }
        let ghost before = self@.events;
        let count = if limit < self.events.len() {
            limit
        } else {
            self.events.len()
        };
        let mut drained: Vec<LifecycleEvent> = Vec::new();
        let mut i: usize = 0;
        proof {
            assert(before.skip(0) =~= before);
        }
        while i < count
            invariant
                count <= before.len(),
                i <= count,
                drained@ == before.take(i as int),
                self@ == (CallRegistryView { events: before.skip(i as int), ..old(self)@ }),
            decreases count - i,
        {
            match self.events.pop_front() {
                Some(event) => {
                    drained.push(event);
                },
                None => {},
            }
            proof {
                assert(before.take(i + 1) == before.take(i as int).push(before[i as int]));
                assert(before.skip(i + 1) == before.skip(i as int).subrange(
                    1,
                    before.skip(i as int).len() as int,
                ));
            }
            i = i + 1;
        }
        Ok(drained)
    }

    /// Drains up to `limit` audit records in emission order.
    pub fn drain_audit_records(&mut self, limit: usize) -> (result: Result<Vec<AuditRecord>, ApiError>)
        requires
            registry_wf(old(self)@),
        ensures
            registry_wf(final(self)@),
            limit == 0 ==> result == Err::<Vec<AuditRecord>, ApiError>(ApiError::InvalidLimit)
                && final(self)@ == old(self)@,
            limit > 0 ==> (result matches Ok(records) && records@ == bounded_take(
                old(self)@.audit,
                limit,
            ) && final(self)@ == (CallRegistryView {
                audit: old(self)@.audit.skip(records@.len() as int),
                ..old(self)@
            })),
    {
        if limit == 0 {
            return Err(ApiError::InvalidLimit);
        }
        let ghost before = self@.audit;
        let count = if limit < self.audit_records.len() {
            limit
        } else {
            self.audit_records.len()
        };
        let mut drained: Vec<AuditRecord> = Vec::new();
        let mut i: usize = 0;
        proof {
            assert(before.skip(0) =~= before);
        }
        while i < count
            invariant
                count <= before.len(),
                i <= count,
                drained@ == before.take(i as int),
                self@ == (CallRegistryView { audit: before.skip(i as int), ..old(self)@ }),
            decreases count - i,
        {
            match self.audit_records.pop_front() {
                Some(record) => {
                    drained.push(record);
                },
                None => {},
            }
            proof {
                assert(before.take(i + 1) == before.take(i as int).push(before[i as int]));
                assert(before.skip(i + 1) == before.skip(i as int).subrange(
                    1,
                    before.skip(i as int).len() as int,
                ));
            }
            i = i + 1;
        }
        Ok(drained)
    }

    /// Drains audit records after verifying read permission.
    pub fn drain_audit_records_authorized(
        &mut self,
        principal: &AuthenticatedPrincipal,
        limit: usize,
    ) -> (result: Result<Vec<AuditRecord>, ApiError>)
        requires
            registry_wf(old(self)@),
        ensures
            registry_wf(final(self)@),
            !permits_read(principal@) ==> result == Err::<Vec<AuditRecord>, ApiError>(
                ApiError::ReadPermissionDenied,
            ) && final(self)@ == old(self)@,
            permits_read(principal@) && limit == 0 ==> result == Err::<Vec<AuditRecord>, ApiError>(
                ApiError::InvalidLimit,
            ) && final(self)@ == old(self)@,
            permits_read(principal@) && limit > 0 ==> (result matches Ok(records) && records@
                == bounded_take(old(self)@.audit, limit) && final(self)@ == (CallRegistryView {
                audit: old(self)@.audit.skip(records@.len() as int),
                ..old(self)@
            })),
    {
        if let Err(error) = principal.authorize_read() {
            return Err(error);
        }
        self.drain_audit_records(limit)
    }

    fn find_event(&self, cursor: &EventId) -> (index: Option<usize>)
        ensures
            match index {
                Some(i) => is_first_event(self@.history, cursor@, i as int),
                None => forall|i: int|
                    0 <= i < self@.history.len() ==> #[trigger] self@.history[i].event_id@
                        != cursor@,
            },
    {
        let mut i: usize = 0;
        while i < self.event_history.len()
            invariant
                i <= self@.history.len(),
                forall|j: int| 0 <= j < i ==> #[trigger] self@.history[j].event_id@ != cursor@,
            decreases self.event_history.len() - i,
        {
            if self.event_history[i].event_id.same_as(cursor) {
                return Some(i);
            }
            i = i + 1;
        }
        None
    }

    /// Returns retained lifecycle events emitted after an optional cursor.
    ///
    /// The cursor is exclusive: passing the last event returned by a consumer
    /// yields only newer events. Events remain replayable after
    /// [`Self::drain_events`] so a reconnecting consumer can backfill without
    /// duplicating acknowledged events. A cursor that has fallen out of the
    /// bounded history is rejected instead of silently returning a partial
    /// stream.
    pub fn replay_events_after(&self, after: Option<&EventId>, limit: usize) -> (result: Result<
        Vec<LifecycleEvent>,
        ApiError,
    >)
        ensures
            limit == 0 ==> result == Err::<Vec<LifecycleEvent>, ApiError>(ApiError::InvalidLimit),
            limit > 0 ==> match replay_start(self@.history, cursor_text(after)) {
                None => result == Err::<Vec<LifecycleEvent>, ApiError>(
                    ApiError::EventHistoryUnavailable,
                ),
                Some(start) => result matches Ok(events) && events@ == bounded_take(
                    self@.history.skip(start),
                    limit,
                ),
            },
    {
        if limit == 0 {
            return Err(ApiError::InvalidLimit);
        }
        let len = self.event_history.len();
        let start = match after {
            None => {
                assert(cursor_text(after) == None::<Seq<char>>);
                0
            },
            Some(cursor) => match self.find_event(cursor) {
                Some(position) => {
                    proof {
                        lemma_first_event_unique(self@.history, cursor@, position as int);
                        assert(is_first_event(self@.history, cursor@, position as int));
                        assert(cursor_text(after) == Some(cursor@));
                        assert(retains_event(self@.history, cursor@));
                    }
                    position + 1
                },
                None => {
                    proof {
                        if retains_event(self@.history, cursor@) {
                            let i = choose|i: int| #[trigger] is_first_event(self@.history, cursor@, i);
                            assert(self@.history[i].event_id@ != cursor@);
                        }
                    }
                    return Err(ApiError::EventHistoryUnavailable);
                },
            },
        };
        assert(replay_start(self@.history, cursor_text(after)) == Some(start as int));
        let ghost rest = self@.history.skip(start as int);
        let available = len - start;
        let count = if limit < available {
            limit
        } else {
            available
        };
        let mut events: Vec<LifecycleEvent> = Vec::new();
        let mut i: usize = 0;
        while i < count
            invariant
                len == self@.history.len(),
                start <= self@.history.len(),
                rest == self@.history.skip(start as int),
                count <= rest.len(),
                i <= count,
                events@ == rest.take(i as int),
            decreases count - i,
        {
            events.push(self.event_history[start + i].clone());
            proof {
                assert(rest.take(i + 1) == rest.take(i as int).push(rest[i as int]));
            }
            i = i + 1;
        }
        Ok(events)
    }

    /// Replays retained lifecycle events after verifying read permission.
    pub fn replay_events_after_authorized(
        &self,
        principal: &AuthenticatedPrincipal,
        after: Option<&EventId>,
        limit: usize,
    ) -> (result: Result<Vec<LifecycleEvent>, ApiError>)
        ensures
            !permits_read(principal@) ==> result == Err::<Vec<LifecycleEvent>, ApiError>(
                ApiError::ReadPermissionDenied,
            ),
            permits_read(principal@) && limit == 0 ==> result == Err::<
                Vec<LifecycleEvent>,
                ApiError,
            >(ApiError::InvalidLimit),
            permits_read(principal@) && limit > 0 ==> match replay_start(
                self@.history,
                cursor_text(after),
            ) {
                None => result == Err::<Vec<LifecycleEvent>, ApiError>(
                    ApiError::EventHistoryUnavailable,
                ),
                Some(start) => result matches Ok(events) && events@ == bounded_take(
                    self@.history.skip(start),
                    limit,
                ),
            },
    {
        if let Err(error) = principal.authorize_read() {
            return Err(error);
        }
        self.replay_events_after(after, limit)
    }

    /// Returns the newest retained lifecycle event identifier, if any.
    pub fn latest_event_id(&self) -> (id: Option<&EventId>)
        ensures
            self@.history.len() == 0 ==> id is None,
            self@.history.len() > 0 ==> id == Some(&self@.history.last().event_id),
    {
        let len = self.event_history.len();
        if len == 0 {
            None
        } else {
            Some(&self.event_history[len - 1].event_id)
        }
    }

    /// Returns the oldest retained lifecycle event identifier, if any.
    pub fn oldest_event_id(&self) -> (id: Option<&EventId>)
        ensures
            self@.history.len() == 0 ==> id is None,
            self@.history.len() > 0 ==> id == Some(&self@.history[0].event_id),
    {
        if self.event_history.len() == 0 {
            None
        } else {
            Some(&self.event_history[0].event_id)
        }
    }

    /// Removes a call only after it reached `Ended` or `Failed`.
    pub fn remove_terminal(&mut self, id: &CallId) -> (result: Result<CallSnapshot, ApiError>)
        requires
            registry_wf(old(self)@),
        ensures
            registry_wf(final(self)@),
            remove_terminal_post(old(self)@, id@, result, final(self)@),
    {
        let index = match self.position(id) {
            Some(index) => index,
            None => return Err(ApiError::UnknownCall),
        };
        let state = self.calls[index].state;
        if state != CallState::Ended && state != CallState::Failed {
            return Err(ApiError::InvalidCommand { state, command: CallCommand::End });
        }
        proof {
            lemma_remove_sorted_call(self@.calls, index as int);
        }
        let removed = self.calls.remove(index);
        Ok(removed)
    }

    /// Reclaims one terminal call after verifying hangup permission.
    pub fn remove_terminal_authorized(&mut self, principal: &AuthenticatedPrincipal, id: &CallId) -> (result:
        Result<CallSnapshot, ApiError>)
        requires
            registry_wf(old(self)@),
        ensures
            registry_wf(final(self)@),
            ({
                let before = old(self)@;
                let after = final(self)@;
                let inner = before_audit(before, after);
                &&& audited(inner, after, principal@.id, Some(*id), AuditOperation::ReclaimTerminal)
                &&& if !permits(principal@, CallCommand::End) {
                    result == Err::<CallSnapshot, ApiError>(
                        ApiError::PermissionDenied {
                            command: CallCommand::End,
                            permission: ControlPermission::HangupCalls,
                        },
                    ) && inner == before
                } else {
                    remove_terminal_post(before, id@, result, inner)
                }
                &&& outcome_reports(after.audit.last().outcome, unit_result(result), false)
            }),
    {
        if let Err(error) = principal.authorize(CallCommand::End) {
            self.record_result(principal, id, AuditOperation::ReclaimTerminal, Err(error), false);
            return Err(error);
        }
        let result = self.remove_terminal(id);
        let summary = match &result {
            Ok(_) => Ok(()),
            Err(error) => Err(*error),
        };
        self.record_result(principal, id, AuditOperation::ReclaimTerminal, summary, false);
        result
    }

    fn active_calls(&self) -> (count: usize)
        ensures
            count == count_active(self@.calls),
    {
        let mut count: usize = 0;
        let mut i: usize = 0;
        while i < self.calls.len()
            invariant
                i <= self@.calls.len(),
                count == count_active(self@.calls.take(i as int)),
                count <= i,
            decreases self.calls.len() - i,
        {
            proof {
                assert(self@.calls.take(i + 1).drop_last() == self@.calls.take(i as int));
            }
            let state = self.calls[i].state;
            if state != CallState::Ended && state != CallState::Failed {
                count = count + 1;
            }
            i = i + 1;
        }
        proof {
            assert(self@.calls.take(self@.calls.len() as int) == self@.calls);
        }
        count
    }

    /// Returns bounded lifecycle counters and current queue gauges.
    pub fn metrics(&self) -> (metrics: CallMetrics)
        ensures
            metrics == (CallMetrics {
                calls_started_total: self@.started,
                calls_answered_total: self@.answered,
                calls_failed_total: self@.failed,
                calls_completed_total: self@.completed,
                calls_active: count_active(self@.calls) as usize,
                calls_retained: self@.calls.len() as usize,
                lifecycle_events_total: self@.events_total,
                pending_events: self@.events.len() as usize,
                retained_event_history: self@.history.len() as usize,
                retained_command_keys: self@.applied.len() as usize,
                pending_audit_records: self@.audit.len() as usize,
            }),
    {
        CallMetrics {
            calls_started_total: self.calls_started_total,
            calls_answered_total: self.calls_answered_total,
            calls_failed_total: self.calls_failed_total,
            calls_completed_total: self.calls_completed_total,
            calls_active: self.active_calls(),
            calls_retained: self.calls.len(),
            lifecycle_events_total: self.lifecycle_events_total,
            pending_events: self.events.len(),
            retained_event_history: self.event_history.len(),
            retained_command_keys: self.applied_commands.len(),
            pending_audit_records: self.audit_records.len(),
        }
    }
}

/// A bounded registry that composes call state, SIP dialogs, and lifecycle
/// events without owning sockets, transactions, or an async runtime. It is
/// well formed at all times: bounds respected, calls in identifier order and
/// idempotency keys distinct.
#[derive(Debug)]
pub struct CallRegistry {
    core: RegistryCore,
}

impl View for CallRegistry {
    type V = CallRegistryView;

    closed spec fn view(&self) -> CallRegistryView {
        self.core@
    }
}

impl CallRegistry {
    /// Every value is well formed.
    #[verifier::type_invariant]
    pub open spec fn well_formed(self) -> bool {
        registry_wf(self@)
    }

    /// Creates an empty registry with validated resource bounds.
    pub fn new(config: CallRegistryConfig) -> (result: Result<Self, ApiError>)
        ensures
            !valid_config(config) ==> result == Err::<Self, ApiError>(ApiError::InvalidConfig),
            valid_config(config) ==> (result matches Ok(registry) && registry@ == (
            CallRegistryView {
                config,
                calls: Seq::empty(),
                events: Seq::empty(),
                history: Seq::empty(),
                applied: Seq::empty(),
                audit: Seq::empty(),
                started: 0,
                answered: 0,
                failed: 0,
                completed: 0,
                events_total: 0,
                next_call_sequence: 1,
                next_event_sequence: 1,
                next_audit_sequence: 1,
            }) && registry_wf(registry@)),
    {
        match RegistryCore::new(config) {
            Ok(core) => Ok(CallRegistry { core }),
            Err(error) => Err(error),
        }
    }

    /// Returns the configured resource bounds.
    pub fn config(&self) -> (config: CallRegistryConfig)
        ensures
            config == self@.config,
    {
        proof {
            use_type_invariant(self);
        }
        self.core.config()
    }

    /// Registers a generated application call identifier and emits `Created`.
    ///
    /// The identifier is `call_` and the first sequence number, counting up
    /// from the next unused one, that no retained call carries.
    pub fn create(&mut self) -> (result: Result<CallId, ApiError>)
        ensures
            registry_wf(final(self)@),
            ({
                let before = old(self)@;
                let after = final(self)@;
                if before.calls.len() >= before.config.max_calls {
                    result == Err::<CallId, ApiError>(ApiError::CallLimitReached) && after == before
                } else if event_capacity_error(before) is Some {
                    result == Err::<CallId, ApiError>(event_capacity_error(before)->Some_0)
                        && after == before
                } else {
                    match result {
                        Ok(id) => {
                            &&& before.next_call_sequence < after.next_call_sequence
                            &&& id@ == call_text((after.next_call_sequence - 1) as u64)
                            &&& !has_call(before.calls, id@)
                            &&& forall|s: u64|
                                before.next_call_sequence <= s < after.next_call_sequence - 1
                                    ==> has_call(before.calls, #[trigger] call_text(s))
                            &&& created(before, after, id)
                        },
                        Err(error) => {
                            &&& error == ApiError::IdentifierExhausted
                            &&& after == (CallRegistryView {
                                next_call_sequence: u64::MAX,
                                ..before
                            })
                            &&& forall|s: u64|
                                before.next_call_sequence <= s < u64::MAX ==> has_call(
                                    before.calls,
                                    #[trigger] call_text(s),
                                )
                        },
                    }
                }
            }),
    {
        proof {
            use_type_invariant(&*self);
        }
        let mut core = RegistryCore::vacant(self.core.config);
        std::mem::swap(&mut core, &mut self.core);
        let result = core.create();
        self.core = core;
        result
    }

    /// Registers a caller-supplied application identifier and emits `Created`.
    pub fn create_with_id(&mut self, id: CallId) -> (result: Result<CallId, ApiError>)
        ensures
            registry_wf(final(self)@),
            has_call(old(self)@.calls, id@) ==> result == Err::<CallId, ApiError>(
                ApiError::DuplicateCall,
            ) && final(self)@ == old(self)@,
            !has_call(old(self)@.calls, id@) ==> create_post(old(self)@, id, result, final(self)@),
    {
        proof {
            use_type_invariant(&*self);
        }
        let mut core = RegistryCore::vacant(self.core.config);
        std::mem::swap(&mut core, &mut self.core);
        let result = core.create_with_id(id);
        self.core = core;
        result
    }

    /// Applies one lifecycle command and emits its event.
    pub fn apply(&mut self, id: &CallId, command: CallCommand) -> (result: Result<
        Option<LifecycleEvent>,
        ApiError,
    >)
        ensures
            registry_wf(final(self)@),
            apply_post(old(self)@, id@, command, result, final(self)@),
    {
        proof {
            use_type_invariant(&*self);
        }
        let mut core = RegistryCore::vacant(self.core.config);
        std::mem::swap(&mut core, &mut self.core);
        let result = core.apply(id, command);
        self.core = core;
        result
    }

    /// Applies a command exactly once for a bounded idempotency key.
    ///
    /// A retry with the same key and identical call/command returns the
    /// original result without mutating state or emitting a duplicate event.
    /// Reusing a retained key for a different call or command is rejected.
    pub fn apply_idempotent(&mut self, id: &CallId, command: CallCommand, command_id: CommandId) -> (result:
        Result<CommandResult, ApiError>)
        ensures
            registry_wf(final(self)@),
            apply_idempotent_post(old(self)@, *id, command, command_id, result, final(self)@),
    {
        proof {
            use_type_invariant(&*self);
        }
        let mut core = RegistryCore::vacant(self.core.config);
        std::mem::swap(&mut core, &mut self.core);
        let result = core.apply_idempotent(id, command, command_id);
        self.core = core;
        result
    }

    /// Records a control-plane operation performed by an integrating engine.
    ///
    /// The record is bounded by `max_pending_events`; the oldest record is
    /// evicted when the bound is reached so audit traffic cannot block call
    /// handling or grow memory without limit. The principal contributes only
    /// its verified, non-secret identifier.
    pub fn record_audit(
        &mut self,
        principal: &AuthenticatedPrincipal,
        call_id: Option<&CallId>,
        operation: AuditOperation,
        outcome: AuditOutcome,
    )
        ensures
            registry_wf(final(self)@),
            audited(old(self)@, final(self)@, principal@.id, call_of(call_id), operation),
            final(self)@.audit.last().outcome == outcome,
    {
        proof {
            use_type_invariant(&*self);
        }
        let mut core = RegistryCore::vacant(self.core.config);
        std::mem::swap(&mut core, &mut self.core);
        let result = core.record_audit(principal, call_id, operation, outcome);
        self.core = core;
        result
    }

    /// Applies one lifecycle command after verifying the caller's permission.
    ///
    /// Authorization is checked before call lookup so a caller without the
    /// required permission cannot use this method to probe call existence.
    pub fn apply_authorized(
        &mut self,
        principal: &AuthenticatedPrincipal,
        id: &CallId,
        command: CallCommand,
    ) -> (result: Result<Option<LifecycleEvent>, ApiError>)
        ensures
            registry_wf(final(self)@),
            apply_authorized_post(old(self)@, principal@, *id, command, result, final(self)@),
    {
        proof {
            use_type_invariant(&*self);
        }
        let mut core = RegistryCore::vacant(self.core.config);
        std::mem::swap(&mut core, &mut self.core);
        let result = core.apply_authorized(principal, id, command);
        self.core = core;
        result
    }

    /// Applies an idempotent lifecycle command after verifying permission.
    ///
    /// Authorization precedes idempotency lookup, so an unauthorized retry
    /// cannot replay a retained event or probe its key's history.
    pub fn apply_idempotent_authorized(
        &mut self,
        principal: &AuthenticatedPrincipal,
        id: &CallId,
        command: CallCommand,
        command_id: CommandId,
    ) -> (result: Result<CommandResult, ApiError>)
        ensures
            registry_wf(final(self)@),
            apply_idempotent_authorized_post(
                old(self)@,
                principal@,
                *id,
                command,
                command_id,
                result,
                final(self)@,
            ),
    {
        proof {
            use_type_invariant(&*self);
        }
        let mut core = RegistryCore::vacant(self.core.config);
        std::mem::swap(&mut core, &mut self.core);
        let result = core.apply_idempotent_authorized(principal, id, command, command_id);
        self.core = core;
        result
    }

    /// Associates a tag-qualified SIP dialog with a call exactly once.
    pub fn bind_dialog(&mut self, id: &CallId, dialog_id: DialogId) -> (result: Result<(), ApiError>)
        ensures
            registry_wf(final(self)@),
            ({
                let before = old(self)@;
                let after = final(self)@;
                if !has_call(before.calls, id@) {
                    result == Err::<(), ApiError>(ApiError::UnknownCall) && after == before
                } else {
                    let index = call_index(before.calls, id@);
                    if before.calls[index].dialog_id is Some {
                        result == Err::<(), ApiError>(ApiError::DialogAlreadyBound) && after == before
                    } else {
                        result == Ok::<(), ApiError>(()) && after == (CallRegistryView {
                            calls: before.calls.update(
                                index,
                                CallSnapshot { dialog_id: Some(dialog_id), ..before.calls[index] },
                            ),
                            ..before
                        })
                    }
                }
            }),
    {
        proof {
            use_type_invariant(&*self);
        }
        let mut core = RegistryCore::vacant(self.core.config);
        std::mem::swap(&mut core, &mut self.core);
        let result = core.bind_dialog(id, dialog_id);
        self.core = core;
        result
    }

    /// Settles the call's audio offer/answer and retains the result; the
    /// direction is the one the two first audio sections negotiate. A failed
    /// negotiation keeps the binding already retained.
    pub fn negotiate_audio(
        &mut self,
        id: &CallId,
        local: &[MediaSection],
        remote: &[MediaSection],
        remote_session_connection: &Option<String>,
        direction: Direction,
    ) -> (result: Result<NegotiatedAudio, ApiError>)
        ensures
            registry_wf(final(self)@),
            ({
                let before = old(self)@;
                let after = final(self)@;
                if !has_call(before.calls, id@) {
                    result == Err::<NegotiatedAudio, ApiError>(ApiError::UnknownCall) && after
                        == before
                } else {
                    exists|selection: Result<AudioSelection, ApiError>|
                        #[trigger] selects(local@, remote@, *remote_session_connection, selection)
                            && negotiation_applied(
                            before,
                            after,
                            call_index(before.calls, id@),
                            selection,
                            direction,
                            result,
                        )
                }
            }),
    {
        proof {
            use_type_invariant(&*self);
        }
        let mut core = RegistryCore::vacant(self.core.config);
        std::mem::swap(&mut core, &mut self.core);
        let result = core.negotiate_audio(id, local, remote, remote_session_connection, direction);
        self.core = core;
        result
    }

    /// Returns the retained audio negotiation for one call, if present.
    pub fn media(&self, id: &CallId) -> (result: Result<Option<NegotiatedAudio>, ApiError>)
        ensures
            has_call(self@.calls, id@) ==> result == Ok::<Option<NegotiatedAudio>, ApiError>(
                self@.calls[call_index(self@.calls, id@)].media,
            ),
            !has_call(self@.calls, id@) ==> result == Err::<Option<NegotiatedAudio>, ApiError>(
                ApiError::UnknownCall,
            ),
    {
        proof {
            use_type_invariant(self);
        }
        self.core.media(id)
    }

    /// Returns a stable snapshot of one call.
    pub fn snapshot(&self, id: &CallId) -> (result: Result<CallSnapshot, ApiError>)
        ensures
            has_call(self@.calls, id@) ==> result == Ok::<CallSnapshot, ApiError>(
                self@.calls[call_index(self@.calls, id@)],
            ),
            !has_call(self@.calls, id@) ==> result == Err::<CallSnapshot, ApiError>(
                ApiError::UnknownCall,
            ),
    {
        proof {
            use_type_invariant(self);
        }
        self.core.snapshot(id)
    }

    /// Returns a call snapshot after verifying read permission.
    pub fn snapshot_authorized(&self, principal: &AuthenticatedPrincipal, id: &CallId) -> (result:
        Result<CallSnapshot, ApiError>)
        ensures
            !permits_read(principal@) ==> result == Err::<CallSnapshot, ApiError>(
                ApiError::ReadPermissionDenied,
            ),
            permits_read(principal@) && has_call(self@.calls, id@) ==> result == Ok::<
                CallSnapshot,
                ApiError,
            >(self@.calls[call_index(self@.calls, id@)]),
            permits_read(principal@) && !has_call(self@.calls, id@) ==> result == Err::<
                CallSnapshot,
                ApiError,
            >(ApiError::UnknownCall),
    {
        proof {
            use_type_invariant(self);
        }
        self.core.snapshot_authorized(principal, id)
    }

    /// Returns up to `limit` snapshots in deterministic identifier order.
    pub fn list(&self, limit: usize) -> (result: Result<Vec<CallSnapshot>, ApiError>)
        ensures
            limit == 0 ==> result == Err::<Vec<CallSnapshot>, ApiError>(ApiError::InvalidLimit),
            limit > 0 ==> (result matches Ok(snapshots) && snapshots@ == bounded_take(
                self@.calls,
                limit,
            )),
    {
        proof {
            use_type_invariant(self);
        }
        self.core.list(limit)
    }

    /// Lists call snapshots after verifying read permission.
    pub fn list_authorized(&self, principal: &AuthenticatedPrincipal, limit: usize) -> (result:
        Result<Vec<CallSnapshot>, ApiError>)
        ensures
            !permits_read(principal@) ==> result == Err::<Vec<CallSnapshot>, ApiError>(
                ApiError::ReadPermissionDenied,
            ),
            permits_read(principal@) && limit == 0 ==> result == Err::<Vec<CallSnapshot>, ApiError>(
                ApiError::InvalidLimit,
            ),
            permits_read(principal@) && limit > 0 ==> (result matches Ok(snapshots) && snapshots@
                == bounded_take(self@.calls, limit)),
    {
        proof {
            use_type_invariant(self);
        }
        self.core.list_authorized(principal, limit)
    }

    /// Returns the number of events waiting to be delivered.
    pub fn pending_events(&self) -> (count: usize)
        ensures
            count == self@.events.len(),
    {
        proof {
            use_type_invariant(self);
        }
        self.core.pending_events()
    }

    /// Returns the number of audit records waiting to be drained.
    pub fn pending_audit_records(&self) -> (count: usize)
        ensures
            count == self@.audit.len(),
    {
        proof {
            use_type_invariant(self);
        }
        self.core.pending_audit_records()
    }

    /// Drains up to `limit` lifecycle events in emission order. They stay in
    /// the replay history.
    pub fn drain_events(&mut self, limit: usize) -> (result: Result<Vec<LifecycleEvent>, ApiError>)
        ensures
            registry_wf(final(self)@),
            drain_events_post(old(self)@, limit, result, final(self)@),
    {
        proof {
            use_type_invariant(&*self);
        }
        let mut core = RegistryCore::vacant(self.core.config);
        std::mem::swap(&mut core, &mut self.core);
        let result = core.drain_events(limit);
        self.core = core;
        result
    }

    /// Drains up to `limit` audit records in emission order.
    pub fn drain_audit_records(&mut self, limit: usize) -> (result: Result<Vec<AuditRecord>, ApiError>)
        ensures
            registry_wf(final(self)@),
            limit == 0 ==> result == Err::<Vec<AuditRecord>, ApiError>(ApiError::InvalidLimit)
                && final(self)@ == old(self)@,
            limit > 0 ==> (result matches Ok(records) && records@ == bounded_take(
                old(self)@.audit,
                limit,
            ) && final(self)@ == (CallRegistryView {
                audit: old(self)@.audit.skip(records@.len() as int),
                ..old(self)@
            })),
    {
        proof {
            use_type_invariant(&*self);
        }
        let mut core = RegistryCore::vacant(self.core.config);
        std::mem::swap(&mut core, &mut self.core);
        let result = core.drain_audit_records(limit);
        self.core = core;
        result
    }

    /// Drains audit records after verifying read permission.
    pub fn drain_audit_records_authorized(
        &mut self,
        principal: &AuthenticatedPrincipal,
        limit: usize,
    ) -> (result: Result<Vec<AuditRecord>, ApiError>)
        ensures
            registry_wf(final(self)@),
            !permits_read(principal@) ==> result == Err::<Vec<AuditRecord>, ApiError>(
                ApiError::ReadPermissionDenied,
            ) && final(self)@ == old(self)@,
            permits_read(principal@) && limit == 0 ==> result == Err::<Vec<AuditRecord>, ApiError>(
                ApiError::InvalidLimit,
            ) && final(self)@ == old(self)@,
            permits_read(principal@) && limit > 0 ==> (result matches Ok(records) && records@
                == bounded_take(old(self)@.audit, limit) && final(self)@ == (CallRegistryView {
                audit: old(self)@.audit.skip(records@.len() as int),
                ..old(self)@
            })),
    {
        proof {
            use_type_invariant(&*self);
        }
        let mut core = RegistryCore::vacant(self.core.config);
        std::mem::swap(&mut core, &mut self.core);
        let result = core.drain_audit_records_authorized(principal, limit);
        self.core = core;
        result
    }

    /// Returns retained lifecycle events emitted after an optional cursor.
    ///
    /// The cursor is exclusive: passing the last event returned by a consumer
    /// yields only newer events. Events remain replayable after
    /// [`Self::drain_events`] so a reconnecting consumer can backfill without
    /// duplicating acknowledged events. A cursor that has fallen out of the
    /// bounded history is rejected instead of silently returning a partial
    /// stream.
    pub fn replay_events_after(&self, after: Option<&EventId>, limit: usize) -> (result: Result<
        Vec<LifecycleEvent>,
        ApiError,
    >)
        ensures
            limit == 0 ==> result == Err::<Vec<LifecycleEvent>, ApiError>(ApiError::InvalidLimit),
            limit > 0 ==> match replay_start(self@.history, cursor_text(after)) {
                None => result == Err::<Vec<LifecycleEvent>, ApiError>(
                    ApiError::EventHistoryUnavailable,
                ),
                Some(start) => result matches Ok(events) && events@ == bounded_take(
                    self@.history.skip(start),
                    limit,
                ),
            },
    {
        proof {
            use_type_invariant(self);
        }
        self.core.replay_events_after(after, limit)
    }

    /// Replays retained lifecycle events after verifying read permission.
    pub fn replay_events_after_authorized(
        &self,
        principal: &AuthenticatedPrincipal,
        after: Option<&EventId>,
        limit: usize,
    ) -> (result: Result<Vec<LifecycleEvent>, ApiError>)
        ensures
            !permits_read(principal@) ==> result == Err::<Vec<LifecycleEvent>, ApiError>(
                ApiError::ReadPermissionDenied,
            ),
            permits_read(principal@) && limit == 0 ==> result == Err::<
                Vec<LifecycleEvent>,
                ApiError,
            >(ApiError::InvalidLimit),
            permits_read(principal@) && limit > 0 ==> match replay_start(
                self@.history,
                cursor_text(after),
            ) {
                None => result == Err::<Vec<LifecycleEvent>, ApiError>(
                    ApiError::EventHistoryUnavailable,
                ),
                Some(start) => result matches Ok(events) && events@ == bounded_take(
                    self@.history.skip(start),
                    limit,
                ),
            },
    {
        proof {
            use_type_invariant(self);
        }
        self.core.replay_events_after_authorized(principal, after, limit)
    }

    /// Returns the newest retained lifecycle event identifier, if any.
    pub fn latest_event_id(&self) -> (id: Option<&EventId>)
        ensures
            self@.history.len() == 0 ==> id is None,
            self@.history.len() > 0 ==> id == Some(&self@.history.last().event_id),
    {
        proof {
            use_type_invariant(self);
        }
        self.core.latest_event_id()
    }

    /// Returns the oldest retained lifecycle event identifier, if any.
    pub fn oldest_event_id(&self) -> (id: Option<&EventId>)
        ensures
            self@.history.len() == 0 ==> id is None,
            self@.history.len() > 0 ==> id == Some(&self@.history[0].event_id),
    {
        proof {
            use_type_invariant(self);
        }
        self.core.oldest_event_id()
    }

    /// Removes a call only after it reached `Ended` or `Failed`.
    pub fn remove_terminal(&mut self, id: &CallId) -> (result: Result<CallSnapshot, ApiError>)
        ensures
            registry_wf(final(self)@),
            remove_terminal_post(old(self)@, id@, result, final(self)@),
    {
        proof {
            use_type_invariant(&*self);
        }
        let mut core = RegistryCore::vacant(self.core.config);
        std::mem::swap(&mut core, &mut self.core);
        let result = core.remove_terminal(id);
        self.core = core;
        result
    }

    /// Reclaims one terminal call after verifying hangup permission.
    pub fn remove_terminal_authorized(&mut self, principal: &AuthenticatedPrincipal, id: &CallId) -> (result:
        Result<CallSnapshot, ApiError>)
        ensures
            registry_wf(final(self)@),
            ({
                let before = old(self)@;
                let after = final(self)@;
                let inner = before_audit(before, after);
                &&& audited(inner, after, principal@.id, Some(*id), AuditOperation::ReclaimTerminal)
                &&& if !permits(principal@, CallCommand::End) {
                    result == Err::<CallSnapshot, ApiError>(
                        ApiError::PermissionDenied {
                            command: CallCommand::End,
                            permission: ControlPermission::HangupCalls,
                        },
                    ) && inner == before
                } else {
                    remove_terminal_post(before, id@, result, inner)
                }
                &&& outcome_reports(after.audit.last().outcome, unit_result(result), false)
            }),
    {
        proof {
            use_type_invariant(&*self);
        }
        let mut core = RegistryCore::vacant(self.core.config);
        std::mem::swap(&mut core, &mut self.core);
        let result = core.remove_terminal_authorized(principal, id);
        self.core = core;
        result
    }

    /// Returns bounded lifecycle counters and current queue gauges.
    pub fn metrics(&self) -> (metrics: CallMetrics)
        ensures
            metrics == (CallMetrics {
                calls_started_total: self@.started,
                calls_answered_total: self@.answered,
                calls_failed_total: self@.failed,
                calls_completed_total: self@.completed,
                calls_active: count_active(self@.calls) as usize,
                calls_retained: self@.calls.len() as usize,
                lifecycle_events_total: self@.events_total,
                pending_events: self@.events.len() as usize,
                retained_event_history: self@.history.len() as usize,
                retained_command_keys: self@.applied.len() as usize,
                pending_audit_records: self@.audit.len() as usize,
            }),
    {
        proof {
            use_type_invariant(self);
        }
        self.core.metrics()
    }
}

proof fn lemma_unique_key_index(applied: Seq<AppliedCommand>, key: Seq<char>, i: int)
    requires
        keys_distinct(applied),
        0 <= i < applied.len(),
        applied[i].command_id@ == key,
    ensures
        key_index(applied, key) == i,
{
    let k = key_index(applied, key);
    assert(0 <= k < applied.len() && applied[k].command_id@ == key);
    if k < i {
        assert(applied[k].command_id@ != applied[i].command_id@);
    } else if i < k {
        assert(applied[i].command_id@ != applied[k].command_id@);
    }
}

proof fn lemma_first_event_unique(history: Seq<LifecycleEvent>, cursor: Seq<char>, i: int)
    requires
        is_first_event(history, cursor, i),
    ensures
        first_event_index(history, cursor) == i,
{
    let k = first_event_index(history, cursor);
    assert(is_first_event(history, cursor, k));
    if k < i {
        assert(history[k].event_id@ != cursor);
    } else if i < k {
        assert(history[i].event_id@ != cursor);
    }
}

/// An idempotent command that succeeded once replays on retry: the same key,
/// call and command give back the first result's event, marked as replayed,
/// and change nothing.
pub proof fn law_idempotent_retry_replays(
    before: CallRegistryView,
    middle: CallRegistryView,
    after: CallRegistryView,
    id: CallId,
    command: CallCommand,
    key: CommandId,
    first: Result<CommandResult, ApiError>,
    retry: Result<CommandResult, ApiError>,
)
    requires
        registry_wf(before),
        registry_wf(middle),
        apply_idempotent_post(before, id, command, key, first, middle),
        first is Ok,
        apply_idempotent_post(middle, id, command, key, retry, after),
    ensures
        retry == Ok::<CommandResult, ApiError>(
            CommandResult { event: first->Ok_0.event, replayed: true },
        ),
        after == middle,
{
    if !has_key(before.applied, key@) {
        let outcome = first->Ok_0;
        let entry = AppliedCommand { command_id: key, call_id: id, command, event: outcome.event };
        let last = middle.applied.len() - 1;
        assert(middle.applied[last] == entry);
        assert(middle.applied[last].command_id@ == key@);
        assert(has_key(middle.applied, key@));
        lemma_unique_key_index(middle.applied, key@, last);
    }
}

/// A rejected command changes nothing: when `apply` or `apply_idempotent`
/// reports an error, the registry is exactly as it was.
pub proof fn law_rejected_command_changes_nothing(
    before: CallRegistryView,
    after: CallRegistryView,
    id: CallId,
    command: CallCommand,
    key: CommandId,
    error: ApiError,
)
    ensures
        apply_post(before, id@, command, Err(error), after) ==> after == before,
        apply_idempotent_post(before, id, command, key, Err(error), after) ==> after == before,
{
}

/// Authorization precedes call and key lookup: a principal without the
/// command's permission is refused with `PermissionDenied` whether or not
/// the call or key exists, an idempotent retry is not replayed to it, and
/// only the audit trail changes.
pub proof fn law_authorization_precedes_lookup(
    before: CallRegistryView,
    after: CallRegistryView,
    principal: PrincipalView,
    id: CallId,
    command: CallCommand,
    key: CommandId,
    applied: Result<Option<LifecycleEvent>, ApiError>,
    retried: Result<CommandResult, ApiError>,
)
    requires
        !permits(principal, command),
    ensures
        apply_authorized_post(before, principal, id, command, applied, after) ==> {
            &&& applied == Err::<Option<LifecycleEvent>, ApiError>(
                ApiError::PermissionDenied { command, permission: command_permission(command) },
            )
            &&& before_audit(before, after) == before
        },
        apply_idempotent_authorized_post(before, principal, id, command, key, retried, after) ==> {
            &&& retried == Err::<CommandResult, ApiError>(
                ApiError::PermissionDenied { command, permission: command_permission(command) },
            )
            &&& before_audit(before, after) == before
        },
{
}

/// Draining delivers events without forgetting them: the replay history, and
/// so every replay, is the same after a drain as before it.
pub proof fn law_drain_keeps_replay_history(
    before: CallRegistryView,
    after: CallRegistryView,
    limit: usize,
    result: Result<Vec<LifecycleEvent>, ApiError>,
    cursor: Option<Seq<char>>,
)
    requires
        drain_events_post(before, limit, result, after),
    ensures
        after.history == before.history,
        replay_start(after.history, cursor) == replay_start(before.history, cursor),
{
}

/// A retained idempotency key answers every later retry, however many other
/// operations came between: the same call and command replay the recorded
/// event, anything else is an `IdempotencyConflict`, and nothing changes.
pub proof fn law_retained_key_answers_retries(
    before: CallRegistryView,
    id: CallId,
    command: CallCommand,
    key: CommandId,
    position: int,
    retry: Result<CommandResult, ApiError>,
    after: CallRegistryView,
)
    requires
        registry_wf(before),
        0 <= position < before.applied.len(),
        before.applied[position].command_id@ == key@,
        apply_idempotent_post(before, id, command, key, retry, after),
    ensures
        after == before,
        ({
            let entry = before.applied[position];
            retry == if entry.call_id@ == id@ && entry.command == command {
                Ok::<CommandResult, ApiError>(CommandResult { event: entry.event, replayed: true })
            } else {
                Err::<CommandResult, ApiError>(ApiError::IdempotencyConflict)
            }
        }),
{
    assert(has_key(before.applied, key@));
    lemma_unique_key_index(before.applied, key@, position);
}

/// A key stays retained while fewer than `max_command_keys - 1` newer keys
/// were recorded after it: an idempotent command with another key keeps its
/// entry, one place nearer the front when the oldest key is evicted, with one
/// more newer key behind it when a key was recorded.
pub proof fn law_key_survives_newer_commands(
    before: CallRegistryView,
    id: CallId,
    command: CallCommand,
    key: CommandId,
    result: Result<CommandResult, ApiError>,
    after: CallRegistryView,
    position: int,
)
    requires
        registry_wf(before),
        apply_idempotent_post(before, id, command, key, result, after),
        0 <= position < before.applied.len(),
        before.applied.len() - 1 - position < before.config.max_command_keys - 1,
    ensures
        exists|later: int|
            0 <= later < after.applied.len() && #[trigger] after.applied[later] == before.applied[position]
                && after.applied.len() - 1 - later == before.applied.len() - 1 - position + (if after.applied
                == before.applied {
                0int
            } else {
                1int
            }),
{
    if has_key(before.applied, key@) {
        assert(after.applied[position] == before.applied[position]);
    } else if result is Err {
        assert(after.applied[position] == before.applied[position]);
    } else {
        let outcome = result->Ok_0;
        let entry = AppliedCommand { command_id: key, call_id: id, command, event: outcome.event };
        if before.applied.len() >= before.config.max_command_keys {
            assert(position > 0);
            assert(after.applied[position - 1] == before.applied[position]);
            assert(after.applied.len() == before.applied.len());
            assert(after.applied[after.applied.len() - 1] == entry);
            assert(before.applied[before.applied.len() - 1].command_id@ != key@);
            assert(after.applied != before.applied);
        } else {
            assert(after.applied[position] == before.applied[position]);
            assert(after.applied.len() == before.applied.len() + 1);
        }
    }
}

/// A negotiation that succeeded is what the call's media reads back
/// afterwards; one that failed leaves the binding retained before.
pub proof fn law_negotiation_is_retained(
    before: CallRegistryView,
    after: CallRegistryView,
    id: CallId,
    selection: Result<AudioSelection, ApiError>,
    direction: Direction,
    result: Result<NegotiatedAudio, ApiError>,
)
    requires
        registry_wf(before),
        has_call(before.calls, id@),
        negotiation_applied(before, after, call_index(before.calls, id@), selection, direction, result),
    ensures
        has_call(after.calls, id@),
        after.calls[call_index(after.calls, id@)].media == match result {
            Ok(audio) => Some(audio),
            Err(_) => before.calls[call_index(before.calls, id@)].media,
        },
{
    let i = call_index(before.calls, id@);
    assert(0 <= i < before.calls.len() && before.calls[i].id@ == id@);
    assert(after.calls.len() == before.calls.len());
    assert(after.calls[i].id@ == id@);
    assert forall|a: int, b: int| 0 <= a < b < after.calls.len() implies text_lt(
        #[trigger] after.calls[a].id@,
        #[trigger] after.calls[b].id@,
    ) by {
        assert(after.calls[a].id == before.calls[a].id);
        assert(after.calls[b].id == before.calls[b].id);
    }
    lemma_unique_call_index(after.calls, id@, i);
}

/// Replay is an exclusive cursor over the retained history: after the
/// retained event at position `i` it resumes exactly at position `i + 1`, and
/// what it returns is the next `limit` events, or fewer at the end.
pub proof fn law_replay_resumes_after_cursor(view: CallRegistryView, i: int, limit: usize)
    requires
        registry_wf(view),
        0 <= i < view.history.len(),
    ensures
        replay_start(view.history, Some(view.history[i].event_id@)) == Some(i + 1),
        bounded_take(view.history.skip(i + 1), limit) == view.history.subrange(
            i + 1,
            if i + 1 + limit < view.history.len() {
                i + 1 + limit
            } else {
                view.history.len() as int
            },
        ),
{
    let history = view.history;
    let cursor = history[i].event_id@;
    assert forall|j: int| 0 <= j < i implies #[trigger] history[j].event_id@ != cursor by {
        assert(history[j].event_id@ != history[i].event_id@);
    }
    assert(is_first_event(history, cursor, i));
    lemma_first_event_unique(history, cursor, i);
    assert(bounded_take(history.skip(i + 1), limit) =~= history.subrange(
        i + 1,
        if i + 1 + limit < history.len() {
            i + 1 + limit
        } else {
            history.len() as int
        },
    ));
}

proof fn lemma_single_bits(held: u16, probe: u16)
    requires
        held == 1 || held == 2 || held == 4 || held == 8 || held == 16 || held == 32,
        probe == 1 || probe == 2 || probe == 4 || probe == 8 || probe == 16 || probe == 32,
    ensures
        (held & probe != 0) == (held == probe),
{
    assert((held & probe != 0) == (held == probe)) by (bit_vector)
        requires
            held == 1 || held == 2 || held == 4 || held == 8 || held == 16 || held == 32,
            probe == 1 || probe == 2 || probe == 4 || probe == 8 || probe == 16 || probe == 32,
    ;
}

/// Each lifecycle command is authorized by its own permission alone: a
/// principal holding just one non-administrative permission may apply
/// exactly the commands of that permission's group, and is refused the
/// others with the permission they need. Transfers (begin and complete)
/// belong to `TransferCalls`; answering, ringing and media to `ManageCalls`;
/// invitations to `OriginateCalls`; hang-up, end and failure to `HangupCalls`.
pub proof fn law_single_permission_authorizes_its_commands(
    principal: PrincipalView,
    held: ControlPermission,
    command: CallCommand,
)
    requires
        held != ControlPermission::Admin,
        principal.permissions == permission_bit(held),
    ensures
        (authorization(principal, command) is Ok) == match held {
            ControlPermission::TransferCalls => command == CallCommand::BeginTransfer || command
                == CallCommand::CompleteTransfer,
            ControlPermission::ManageCalls => command == CallCommand::EarlyMedia || command
                == CallCommand::Ringing || command == CallCommand::Answer || command
                == CallCommand::MediaStarted,
            ControlPermission::OriginateCalls => command == CallCommand::InviteReceived,
            ControlPermission::HangupCalls => command == CallCommand::Hangup || command
                == CallCommand::End || command == CallCommand::Fail,
            _ => false,
        },
        (command == CallCommand::BeginTransfer || command == CallCommand::CompleteTransfer)
            && held != ControlPermission::TransferCalls ==> authorization(principal, command) == Err::<
            (),
            ApiError,
        >(ApiError::PermissionDenied { command, permission: ControlPermission::TransferCalls }),
{
    lemma_single_bits(permission_bit(held), permission_bit(command_permission(command)));
    lemma_single_bits(permission_bit(held), permission_bit(ControlPermission::Admin));
    lemma_bits_distinct(held, command_permission(command));
    lemma_bits_distinct(held, ControlPermission::Admin);
}

/// An administrator may apply every command; a principal holding no
/// permission may apply none and is told the command's own permission.
pub proof fn law_admin_and_empty_principals(principal: PrincipalView, command: CallCommand)
    ensures
        grants(principal, ControlPermission::Admin) ==> authorization(principal, command) is Ok,
        principal.permissions == 0 ==> authorization(principal, command) == Err::<(), ApiError>(
            ApiError::PermissionDenied { command, permission: command_permission(command) },
        ),
{
    assert(0u16 & permission_bit(command_permission(command)) == 0) by (bit_vector);
    assert(0u16 & 32u16 == 0) by (bit_vector);
}

/// A begun transfer can be completed, and completing it returns the call to
/// the state the transfer was begun from.
pub proof fn law_begun_transfer_can_complete(state: CallState)
    requires
        valid_transition(state, command_target(CallCommand::BeginTransfer).0),
    ensures
        valid_transition(
            command_target(CallCommand::BeginTransfer).0,
            command_target(CallCommand::CompleteTransfer).0,
        ),
        command_target(CallCommand::CompleteTransfer).0 == state,
{
}

} // verus!
