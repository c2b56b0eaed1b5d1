//! The call engine's own decisions, apart from the transaction and dialog
//! state machines it drives: how a request is routed, which inbound INVITE a
//! response answers, when a CANCEL is refused with 481, which calls fail after
//! timeouts and in which order, and how 2xx INVITE responses are retransmitted
//! over unreliable transports.
//!
//! Transactions are seen through the values these decisions read: their key,
//! call, whether they are INVITE transactions, whether they can still be
//! cancelled, and the peer they answer.

use vstd::prelude::*;

use crate::call_api::CallCommand;
use crate::call_core::{CallId, CallState};
use crate::engine::{header_text, required_header, response_command, response_call_command, EngineError, SipHeader};
use crate::text::{decimal_digits, push_decimal, push_text};
use crate::media_time::{media_sat_add, MediaTime, MAX_MEDIA_NANOS};
use crate::text::{lemma_text_order, text_less, text_lt};

verus! {

/// The method of a SIP request, as far as the engine distinguishes it.
#[derive(Clone, Debug, PartialEq, Eq)]
pub enum SipMethod {
    Invite,
    Ack,
    Bye,
    Cancel,
    Options,
    /// Any other method, by its token.
    Other(String),
}

/// Where a new request goes inside the engine.
#[derive(Clone, Copy, Debug, PartialEq, Eq, Structural)]
pub enum RequestRoute {
    /// An INVITE without a `To` tag: a new inbound call.
    InitialInvite,
    /// An out-of-dialog OPTIONS probe.
    Options,
    /// An ACK for a final INVITE response.
    Ack,
    /// A CANCEL of a pending INVITE.
    Cancel,
    /// Any other supported request, inside an existing dialog.
    InDialog,
}

/// The route of a request that matched no existing transaction: OPTIONS
/// without a `To` tag is answered directly; methods outside INVITE, ACK, BYE,
/// CANCEL and OPTIONS are unsupported; CANCEL and ACK have their own paths;
/// an INVITE without a `To` tag starts a call; the rest is in-dialog.
pub open spec fn request_route(method: SipMethod, has_to_tag: bool) -> Result<RequestRoute, EngineError> {
    match method {
        SipMethod::Options => if has_to_tag {
            Ok(RequestRoute::InDialog)
        } else {
            Ok(RequestRoute::Options)
        },
        SipMethod::Other(_) => Err(EngineError::UnsupportedRequest),
        SipMethod::Cancel => Ok(RequestRoute::Cancel),
        SipMethod::Ack => Ok(RequestRoute::Ack),
        SipMethod::Invite => if has_to_tag {
            Ok(RequestRoute::InDialog)
        } else {
            Ok(RequestRoute::InitialInvite)
        },
        SipMethod::Bye => Ok(RequestRoute::InDialog),
    }
}

/// Routes a request that is not a retransmission of a known transaction.
pub fn classify_request(method: &SipMethod, has_to_tag: bool) -> (route: Result<RequestRoute, EngineError>)
    ensures
        route == request_route(*method, has_to_tag),
{
    match method {
        SipMethod::Options => if has_to_tag {
            Ok(RequestRoute::InDialog)
        } else {
            Ok(RequestRoute::Options)
        },
        SipMethod::Other(_) => Err(EngineError::UnsupportedRequest),
        SipMethod::Cancel => Ok(RequestRoute::Cancel),
        SipMethod::Ack => Ok(RequestRoute::Ack),
        SipMethod::Invite => if has_to_tag {
            Ok(RequestRoute::InDialog)
        } else {
            Ok(RequestRoute::InitialInvite)
        },
        SipMethod::Bye => Ok(RequestRoute::InDialog),
    }
}

/// Which server transaction a request is matched against for retransmission.
#[derive(Clone, Copy, Debug, PartialEq, Eq, Structural)]
pub enum TransactionLookup {
    /// The transaction of the request's own branch and method.
    Own,
    /// The INVITE transaction of the ACK's branch.
    InviteOfAck,
}

/// A request looks up its own transaction when one exists; otherwise an ACK
/// looks up the INVITE transaction of its branch.
pub fn retransmission_lookup(method: &SipMethod, own_transaction_exists: bool) -> (lookup: TransactionLookup)
    ensures
        lookup == (if !own_transaction_exists && *method == SipMethod::Ack {
            TransactionLookup::InviteOfAck
        } else {
            TransactionLookup::Own
        }),
{
    if own_transaction_exists {
        return TransactionLookup::Own;
    }
    match method {
        SipMethod::Ack => TransactionLookup::InviteOfAck,
        _ => TransactionLookup::Own,
    }
}

/// What the engine's decisions read of one server transaction.
pub struct ServerTransactionView {
    /// The transaction key: branch and method.
    pub key: String,
    /// The call the transaction belongs to, if any.
    pub call: Option<CallId>,
    /// Whether it is an INVITE transaction.
    pub is_invite: bool,
    /// Whether it is still Trying or Proceeding, so a CANCEL can end it.
    pub cancellable: bool,
    /// The peer its responses go to, if known.
    pub destination: Option<u64>,
}

pub open spec fn call_text(call: Option<CallId>) -> Option<Seq<char>> {
    match call {
        Some(call) => Some(call@),
        None => None,
    }
}

/// `i` is the first INVITE server transaction of the call.
pub open spec fn first_invite_of(transactions: Seq<ServerTransactionView>, call: Seq<char>, i: int) -> bool {
    &&& 0 <= i < transactions.len()
    &&& transactions[i].is_invite && call_text(transactions[i].call) == Some(call)
    &&& forall|j: int|
        0 <= j < i ==> !(#[trigger] transactions[j].is_invite && call_text(transactions[j].call)
            == Some(call))
}

/// Where a response of `status_code` to the inbound INVITE of a call goes:
/// statuses below 180 or above 699 are refused; the call's INVITE server
/// transaction gives the key and the peer; without one, or without its peer,
/// the call has no inbound INVITE.
pub open spec fn invite_response_target(
    transactions: Seq<ServerTransactionView>,
    call: Seq<char>,
    status_code: u16,
) -> Result<(Seq<char>, u64), EngineError> {
    if status_code < 180 || status_code > 699 {
        Err(EngineError::InvalidResponseStatus)
    } else if exists|i: int| first_invite_of(transactions, call, i) {
        let i = choose|i: int| first_invite_of(transactions, call, i);
        match transactions[i].destination {
            Some(destination) => Ok((transactions[i].key@, destination)),
            None => Err(EngineError::NotInboundInvite),
        }
    } else {
        Err(EngineError::NotInboundInvite)
    }
}

proof fn lemma_first_invite_unique(transactions: Seq<ServerTransactionView>, call: Seq<char>, i: int)
    requires
        first_invite_of(transactions, call, i),
    ensures
        (choose|k: int| first_invite_of(transactions, call, k)) == i,
{
    let k = choose|k: int| first_invite_of(transactions, call, k);
    assert(first_invite_of(transactions, call, k));
    if k < i {
        assert(!(transactions[k].is_invite && call_text(transactions[k].call) == Some(call)));
    } else if i < k {
        assert(!(transactions[i].is_invite && call_text(transactions[i].call) == Some(call)));
    }
}

fn same_call(call: &Option<CallId>, id: &CallId) -> (same: bool)
    ensures
        same == (call_text(*call) == Some(id@)),
{
    match call {
        Some(call) => call.same_as(id),
        None => false,
    }
}

/// Finds the inbound INVITE transaction a response to the call answers, with
/// the peer the response goes to.
pub fn invite_response_plan(
    transactions: &[ServerTransactionView],
    id: &CallId,
    status_code: u16,
) -> (target: Result<(String, u64), EngineError>)
    ensures
        match (target, invite_response_target(transactions@, id@, status_code)) {
            (Ok((key, destination)), Ok((expected_key, expected_destination))) => key@
                == expected_key && destination == expected_destination,
            (Err(error), Err(expected)) => error == expected,
            _ => false,
        },
{
    if status_code < 180 || status_code > 699 {
        return Err(EngineError::InvalidResponseStatus);
    }
    let mut index: usize = 0;
    while index < transactions.len()
        invariant
            180 <= status_code <= 699,
            index <= transactions@.len(),
            forall|j: int|
                0 <= j < index ==> !(#[trigger] transactions@[j].is_invite && call_text(
                    transactions@[j].call,
                ) == Some(id@)),
        decreases transactions.len() - index,
    {
        let matches = transactions[index].is_invite && same_call(&transactions[index].call, id);
        if matches {
            proof {
                assert(first_invite_of(transactions@, id@, index as int));
                lemma_first_invite_unique(transactions@, id@, index as int);
            }
            return match transactions[index].destination {
                Some(destination) => Ok((transactions[index].key.clone(), destination)),
                None => Err(EngineError::NotInboundInvite),
            };
        }
        index = index + 1;
    }
    proof {
        assert(!exists|i: int| first_invite_of(transactions@, id@, i));
    }
    Err(EngineError::NotInboundInvite)
}

/// What the engine reads of a dialog: its call and its SIP `Call-ID`.
pub struct DialogView {
    pub call: CallId,
    pub sip_call_id: String,
}

/// What a CANCEL leads to.
#[derive(Debug, PartialEq, Eq)]
pub enum CancelPlan {
    /// No cancellable INVITE carries the branch: answer 481.
    Reject481,
    /// End the pending INVITE of this call with 487 and answer 200.
    Cancel { call: CallId },
    /// The INVITE has no call, or the call's dialog is missing or carries
    /// another `Call-ID`.
    UnknownDialog,
}

/// `i` is the first transaction with the key.
pub open spec fn first_keyed(transactions: Seq<ServerTransactionView>, key: Seq<char>, i: int) -> bool {
    &&& 0 <= i < transactions.len()
    &&& transactions[i].key@ == key
    &&& forall|j: int| 0 <= j < i ==> #[trigger] transactions[j].key@ != key
}

/// `i` is the first dialog of the call.
pub open spec fn first_dialog(dialogs: Seq<DialogView>, call: Seq<char>, i: int) -> bool {
    &&& 0 <= i < dialogs.len()
    &&& dialogs[i].call@ == call
    &&& forall|j: int| 0 <= j < i ==> #[trigger] dialogs[j].call@ != call
}

/// The outcome of a CANCEL whose branch names the INVITE transaction
/// `invite_key`: 481 unless that transaction exists and is still Trying or
/// Proceeding; then its call, whose dialog must carry the CANCEL's `Call-ID`.
pub open spec fn cancel_outcome(
    transactions: Seq<ServerTransactionView>,
    dialogs: Seq<DialogView>,
    invite_key: Seq<char>,
    sip_call_id: Seq<char>,
) -> Option<Option<Seq<char>>> {
    if exists|i: int| first_keyed(transactions, invite_key, i) {
        let i = choose|i: int| first_keyed(transactions, invite_key, i);
        if !transactions[i].cancellable {
            None
        } else {
            match transactions[i].call {
                None => Some(None),
                Some(call) => if exists|d: int| first_dialog(dialogs, call@, d) {
                    let d = choose|d: int| first_dialog(dialogs, call@, d);
                    if dialogs[d].sip_call_id@ == sip_call_id {
                        Some(Some(call@))
                    } else {
                        Some(None)
                    }
                } else {
                    Some(None)
                },
            }
        }
    } else {
        None
    }
}

proof fn lemma_first_keyed_unique(transactions: Seq<ServerTransactionView>, key: Seq<char>, i: int)
    requires
        first_keyed(transactions, key, i),
    ensures
        (choose|k: int| first_keyed(transactions, key, k)) == i,
{
    let k = choose|k: int| first_keyed(transactions, key, k);
    assert(first_keyed(transactions, key, k));
    if k < i {
        assert(transactions[k].key@ != key);
    } else if i < k {
        assert(transactions[i].key@ != key);
    }
}

proof fn lemma_first_dialog_unique(dialogs: Seq<DialogView>, call: Seq<char>, i: int)
    requires
        first_dialog(dialogs, call, i),
    ensures
        (choose|k: int| first_dialog(dialogs, call, k)) == i,
{
    let k = choose|k: int| first_dialog(dialogs, call, k);
    assert(first_dialog(dialogs, call, k));
    if k < i {
        assert(dialogs[k].call@ != call);
    } else if i < k {
        assert(dialogs[i].call@ != call);
    }
}

fn same_text(a: &String, b: &str) -> (same: bool)
    ensures
        same == (a@ == b@),
{
    let left = crate::text::collect_chars(a.as_str());
    let right = crate::text::collect_chars(b);
    if left.len() != right.len() {
        return false;
    }
    let mut index: usize = 0;
    while index < left.len()
        invariant
            left@ == a@,
            right@ == b@,
            left@.len() == right@.len(),
            index <= left@.len(),
            forall|j: int| 0 <= j < index ==> #[trigger] left@[j] == right@[j],
        decreases left.len() - index,
    {
        if left[index] != right[index] {
            return false;
        }
        index = index + 1;
    }
    proof {
        assert(left@ =~= right@);
    }
    true
}

fn dialog_call_id_matches(dialogs: &[DialogView], call: &CallId, sip_call_id: &str) -> (matches: bool)
    ensures
        matches == ((exists|d: int| first_dialog(dialogs@, call@, d)) && dialogs@[choose|d: int|
            first_dialog(dialogs@, call@, d)].sip_call_id@ == sip_call_id@),
{
    let mut index: usize = 0;
    while index < dialogs.len()
        invariant
            index <= dialogs@.len(),
            forall|j: int| 0 <= j < index ==> #[trigger] dialogs@[j].call@ != call@,
        decreases dialogs.len() - index,
    {
        if dialogs[index].call.same_as(call) {
            proof {
                assert(first_dialog(dialogs@, call@, index as int));
                lemma_first_dialog_unique(dialogs@, call@, index as int);
            }
            return same_text(&dialogs[index].sip_call_id, sip_call_id);
        }
        index = index + 1;
    }
    proof {
        assert(!exists|d: int| first_dialog(dialogs@, call@, d));
    }
    false
}

/// Decides a CANCEL for the INVITE transaction `invite_key` (its branch with
/// method INVITE) carrying the SIP `Call-ID` `sip_call_id`.
pub fn cancel_plan(
    transactions: &[ServerTransactionView],
    dialogs: &[DialogView],
    invite_key: &str,
    sip_call_id: &str,
) -> (plan: CancelPlan)
    ensures
        match cancel_outcome(transactions@, dialogs@, invite_key@, sip_call_id@) {
            None => plan == CancelPlan::Reject481,
            Some(None) => plan == CancelPlan::UnknownDialog,
            Some(Some(call)) => plan matches CancelPlan::Cancel { call: cancelled } && cancelled@
                == call,
        },
{
    let mut index: usize = 0;
    while index < transactions.len()
        invariant
            index <= transactions@.len(),
            forall|j: int| 0 <= j < index ==> #[trigger] transactions@[j].key@ != invite_key@,
        decreases transactions.len() - index,
    {
        if same_text(&transactions[index].key, invite_key) {
            proof {
                assert(first_keyed(transactions@, invite_key@, index as int));
                lemma_first_keyed_unique(transactions@, invite_key@, index as int);
            }
            let transaction = &transactions[index];
            if !transaction.cancellable {
                return CancelPlan::Reject481;
            }
            return match &transaction.call {
                None => CancelPlan::UnknownDialog,
                Some(call) => if dialog_call_id_matches(dialogs, call, sip_call_id) {
                    CancelPlan::Cancel { call: call.clone() }
                } else {
                    CancelPlan::UnknownDialog
                },
            };
        }
        index = index + 1;
    }
    proof {
        assert(!exists|i: int| first_keyed(transactions@, invite_key@, i));
    }
    CancelPlan::Reject481
}

/// The doubled retransmission interval of a 2xx INVITE response, capped at T2
/// (doubling saturates at the largest time).
pub open spec fn doubled_interval(interval: nat, t2: nat) -> nat {
    let doubled = if 2 * interval > MAX_MEDIA_NANOS {
        MAX_MEDIA_NANOS as nat
    } else {
        2 * interval
    };
    if doubled <= t2 {
        doubled
    } else {
        t2
    }
}

/// The retransmission state of a final 2xx response to an inbound INVITE.
#[derive(Clone, Copy, Debug, PartialEq, Eq, Structural)]
pub struct FinalInviteTimer {
    /// Whether the ACK arrived.
    pub acknowledged: bool,
    /// When the response goes out again, on an unreliable transport.
    pub next_retransmit: Option<MediaTime>,
    /// The current retransmission interval.
    pub retransmit_interval: MediaTime,
}

impl FinalInviteTimer {
    /// The timer of a response sent at `now`: over an unreliable transport the
    /// first retransmission is due after T1; a reliable one never retransmits.
    pub fn new(unreliable: bool, now: MediaTime, t1: MediaTime) -> (timer: Self)
        ensures
            !timer.acknowledged,
            timer.retransmit_interval == t1,
            timer.next_retransmit == (if unreliable {
                Some(MediaTime::spec_from_nanos(media_sat_add(now@, t1@)))
            } else {
                None::<MediaTime>
            }),
    {
        FinalInviteTimer {
            acknowledged: false,
            next_retransmit: if unreliable {
                Some(now.saturating_add(t1))
            } else {
                None
            },
            retransmit_interval: t1,
        }
    }

    /// The ACK arrived: no more retransmissions.
    pub fn acknowledge(&mut self)
        ensures
            final(self).acknowledged,
            final(self).next_retransmit is None,
            final(self).retransmit_interval == old(self).retransmit_interval,
    {
        self.acknowledged = true;
        self.next_retransmit = None;
    }

    /// Polls the timer at `now`: when the response is unacknowledged and due,
    /// it is sent again, the interval doubles up to T2 and the next deadline
    /// is `now` plus the new interval. Returns whether to retransmit.
    pub fn poll(&mut self, now: MediaTime, t2: MediaTime) -> (retransmit: bool)
        ensures
            retransmit == (!old(self).acknowledged && old(self).next_retransmit is Some
                && old(self).next_retransmit->Some_0@ <= now@),
            retransmit ==> ({
                let interval = doubled_interval(old(self).retransmit_interval@, t2@);
                &&& final(self).retransmit_interval@ == interval
                &&& final(self).next_retransmit == Some(
                    MediaTime::spec_from_nanos(media_sat_add(now@, interval)),
                )
                &&& final(self).acknowledged == old(self).acknowledged
            }),
            !retransmit ==> *final(self) == *old(self),
    {
        let deadline = match self.next_retransmit {
            Some(deadline) => deadline,
            None => return false,
        };
        if self.acknowledged || deadline.as_nanos() > now.as_nanos() {
            return false;
        }
        let current = self.retransmit_interval.as_nanos();
        let doubled = match current.checked_mul(2) {
            Some(doubled) => if doubled > MAX_MEDIA_NANOS {
                MAX_MEDIA_NANOS
            } else {
                doubled
            },
            None => MAX_MEDIA_NANOS,
        };
        let interval = if doubled <= t2.as_nanos() {
            doubled
        } else {
            t2.as_nanos()
        };
        let next = MediaTime::from_nanos(interval);
        self.retransmit_interval = next;
        self.next_retransmit = Some(now.saturating_add(next));
        true
    }
}

/// The identifier texts of calls, in order.
pub open spec fn call_ids(calls: Seq<CallId>) -> Seq<Seq<char>> {
    calls.map_values(|call: CallId| call@)
}

/// Identifiers in strictly increasing order, so none repeats.
pub open spec fn strictly_sorted(ids: Seq<Seq<char>>) -> bool {
    forall|i: int, j: int| 0 <= i < j < ids.len() ==> text_lt(#[trigger] ids[i], #[trigger] ids[j])
}

proof fn lemma_insert_sorted(before: Seq<Seq<char>>, position: int, id: Seq<char>)
    requires
        strictly_sorted(before),
        0 <= position <= before.len(),
        forall|k: int| 0 <= k < position ==> text_lt(#[trigger] before[k], id),
        position < before.len() ==> text_lt(id, before[position]),
    ensures
        strictly_sorted(before.insert(position, id)),
{
    let after = before.insert(position, id);
    assert forall|i: int, j: int| 0 <= i < j < after.len() implies text_lt(
        #[trigger] after[i],
        #[trigger] after[j],
    ) by {
        if j < position {
            assert(after[i] == before[i] && after[j] == before[j]);
        } else if j == position {
            assert(after[i] == before[i]);
        } else if i < position {
            assert(after[i] == before[i] && after[j] == before[j - 1]);
            lemma_text_order(before[i], id, before[position]);
            if j - 1 > position {
                lemma_text_order(before[i], before[position], before[j - 1]);
            }
        } else if i == position {
            assert(after[j] == before[j - 1]);
            if j - 1 > position {
                lemma_text_order(id, before[position], before[j - 1]);
            }
        } else {
            assert(after[i] == before[i - 1] && after[j] == before[j - 1]);
        }
    }
}

/// Adds a call to a strictly sorted list of calls unless it is there.
fn insert_call(order: &mut Vec<CallId>, call: &CallId)
    requires
        strictly_sorted(call_ids(old(order)@)),
    ensures
        strictly_sorted(call_ids(final(order)@)),
        forall|id: Seq<char>|
            call_ids(final(order)@).contains(id) <==> (call_ids(old(order)@).contains(id) || id
                == call@),
{
    let ghost before = call_ids(order@);
    let mut position: usize = 0;
    while position < order.len() && text_less(order[position].as_str(), call.as_str())
        invariant
            position <= order@.len(),
            before == call_ids(order@),
            forall|k: int| 0 <= k < position ==> text_lt(#[trigger] before[k], call@),
        decreases order.len() - position,
    {
        position = position + 1;
    }
    if position < order.len() && order[position].same_as(call) {
        proof {
            assert(before[position as int] == call@);
        }
        return;
    }
    proof {
        if position < before.len() {
            lemma_text_order(before[position as int], call@, call@);
        }
        lemma_insert_sorted(before, position as int, call@);
    }
    order.insert(position, call.clone());
    proof {
        let after = call_ids(order@);
        assert(after =~= before.insert(position as int, call@));
        assert forall|id: Seq<char>| after.contains(id) <==> (before.contains(id) || id == call@) by {
            if after.contains(id) {
                let i = choose|i: int| 0 <= i < after.len() && after[i] == id;
                if i < position {
                    assert(before[i] == id);
                } else if i > position {
                    assert(before[i - 1] == id);
                }
            }
            if before.contains(id) {
                let i = choose|i: int| 0 <= i < before.len() && before[i] == id;
                if i < position {
                    assert(after[i] == id);
                } else {
                    assert(after[i + 1] == id);
                }
            }
            if id == call@ {
                assert(after[position as int] == id);
            }
        }
    }
}

/// The calls whose transactions timed out, each once, in identifier order:
/// the order in which they are failed.
pub fn timed_out_order(calls: &[CallId]) -> (order: Vec<CallId>)
    ensures
        strictly_sorted(call_ids(order@)),
        forall|id: Seq<char>| call_ids(order@).contains(id) <==> call_ids(calls@).contains(id),
{
    let mut order: Vec<CallId> = Vec::new();
    let mut index: usize = 0;
    proof {
        assert(call_ids(order@) =~= Seq::<Seq<char>>::empty());
    }
    while index < calls.len()
        invariant
            index <= calls@.len(),
            strictly_sorted(call_ids(order@)),
            forall|id: Seq<char>|
                call_ids(order@).contains(id) <==> call_ids(calls@.take(index as int)).contains(id),
        decreases calls.len() - index,
    {
        proof {
            let taken = call_ids(calls@.take(index as int));
            let next = call_ids(calls@.take(index + 1));
            assert(next =~= taken.push(calls@[index as int]@));
            assert forall|id: Seq<char>| next.contains(id) <==> (taken.contains(id) || id
                == calls@[index as int]@) by {
                if next.contains(id) {
                    let i = choose|i: int| 0 <= i < next.len() && next[i] == id;
                    if i < taken.len() {
                        assert(taken[i] == id);
                    }
                }
                if taken.contains(id) {
                    let i = choose|i: int| 0 <= i < taken.len() && taken[i] == id;
                    assert(next[i] == id);
                }
                if id == calls@[index as int]@ {
                    assert(next[index as int] == id);
                }
            }
        }
        insert_call(&mut order, &calls[index]);
        index = index + 1;
    }
    proof {
        assert(calls@.take(calls@.len() as int) =~= calls@);
    }
    order
}

/// What the engine does with a response on an outbound INVITE transaction.
#[derive(Clone, Copy, Debug, PartialEq, Eq, Structural)]
pub struct ResponsePlan {
    /// The call command the response drives.
    pub command: Option<CallCommand>,
    /// Whether an ACK goes out: for every final response.
    pub acknowledge: bool,
    /// Whether the final response was a 2xx.
    pub successful: bool,
    /// Whether the call ends after a non-2xx final response.
    pub end_call: bool,
    /// Whether the dialog is kept (below 300) or dropped.
    pub keep_dialog: bool,
}

pub open spec fn response_plan_spec(state: CallState, status_code: u16) -> ResponsePlan {
    ResponsePlan {
        command: response_command(state, status_code),
        acknowledge: status_code >= 200,
        successful: 200 <= status_code < 300,
        end_call: status_code >= 300,
        keep_dialog: status_code < 300,
    }
}

/// Plans the handling of a response received for a call in `state`.
pub fn response_plan(state: CallState, status_code: u16) -> (plan: ResponsePlan)
    ensures
        plan == response_plan_spec(state, status_code),
{
    ResponsePlan {
        command: response_call_command(state, status_code),
        acknowledge: status_code >= 200,
        successful: 200 <= status_code && status_code < 300,
        end_call: status_code >= 300,
        keep_dialog: status_code < 300,
    }
}

/// What the engine does when the application answers an inbound INVITE.
#[derive(Clone, Copy, Debug, PartialEq, Eq, Structural)]
pub struct AnswerPlan {
    /// The call command the status drives.
    pub command: Option<CallCommand>,
    /// Whether the response is final (sent as such to the transaction).
    pub is_final: bool,
    /// Whether the call ends: a 3xx to 6xx rejection.
    pub end_call: bool,
    /// Whether the final 2xx (or the provisional one) is kept for ACK matching
    /// and retransmission.
    pub remember_response: bool,
}

pub open spec fn answer_plan_spec(state: CallState, status_code: u16) -> AnswerPlan {
    AnswerPlan {
        command: response_command(state, status_code),
        is_final: status_code >= 200,
        end_call: status_code >= 300,
        remember_response: status_code < 300,
    }
}

/// Plans the answer of an inbound INVITE in `state` with `status_code`.
pub fn answer_plan(state: CallState, status_code: u16) -> (plan: AnswerPlan)
    ensures
        plan == answer_plan_spec(state, status_code),
{
    AnswerPlan {
        command: response_call_command(state, status_code),
        is_final: status_code >= 200,
        end_call: status_code >= 300,
        remember_response: status_code < 300,
    }
}

/// How a call whose transaction timed out is failed.
#[derive(Clone, Copy, Debug, PartialEq, Eq, Structural)]
pub enum FailPlan {
    /// It already ended or failed: nothing to do.
    Nothing,
    /// It was ending: finish it.
    End,
    /// Mark it failed, then end it.
    FailThenEnd,
}

pub open spec fn fail_plan_spec(state: CallState) -> FailPlan {
    if state == CallState::Ended || state == CallState::Failed {
        FailPlan::Nothing
    } else if state == CallState::Ending {
        FailPlan::End
    } else {
        FailPlan::FailThenEnd
    }
}

/// Plans failing a call in `state` after a transaction timeout.
pub fn fail_plan(state: CallState) -> (plan: FailPlan)
    ensures
        plan == fail_plan_spec(state),
{
    if state == CallState::Ended || state == CallState::Failed {
        FailPlan::Nothing
    } else if state == CallState::Ending {
        FailPlan::End
    } else {
        FailPlan::FailThenEnd
    }
}

/// Whether a final response that arrives again for a completed INVITE is a
/// true retransmission of the recorded one: a final status of the same class
/// (2xx or not), the same `Call-ID` and the same `CSeq`. Anything else is an
/// unknown transaction; a missing header is reported as such.
pub open spec fn final_replay_check(
    status_code: u16,
    successful: bool,
    response: Seq<SipHeader>,
    recorded: Seq<SipHeader>,
) -> Result<(), EngineError> {
    if status_code < 200 || (status_code < 300) != successful {
        Err(EngineError::UnknownTransaction)
    } else {
        match (header_text(response, "Call-ID"@), header_text(recorded, "Call-ID"@)) {
            (None, _) => Err(EngineError::MissingHeader("Call-ID")),
            (Some(_), None) => Err(EngineError::MissingHeader("Call-ID")),
            (Some(a), Some(b)) => if a != b {
                Err(EngineError::UnknownTransaction)
            } else {
                match (header_text(response, "CSeq"@), header_text(recorded, "CSeq"@)) {
                    (None, _) => Err(EngineError::MissingHeader("CSeq")),
                    (Some(_), None) => Err(EngineError::MissingHeader("CSeq")),
                    (Some(c), Some(d)) => if c != d {
                        Err(EngineError::UnknownTransaction)
                    } else {
                        Ok(())
                    },
                }
            },
        }
    }
}

fn same_str(a: &str, b: &str) -> (same: bool)
    ensures
        same == (a@ == b@),
{
    let left = crate::text::collect_chars(a);
    let right = crate::text::collect_chars(b);
    if left.len() != right.len() {
        return false;
    }
    let mut index: usize = 0;
    while index < left.len()
        invariant
            left@ == a@,
            right@ == b@,
            left@.len() == right@.len(),
            index <= left@.len(),
            forall|j: int| 0 <= j < index ==> #[trigger] left@[j] == right@[j],
        decreases left.len() - index,
    {
        if left[index] != right[index] {
            return false;
        }
        index = index + 1;
    }
    proof {
        assert(left@ =~= right@);
    }
    true
}

/// Checks a final response that arrives again for a completed INVITE.
pub fn check_final_replay(
    status_code: u16,
    successful: bool,
    response: &[SipHeader],
    recorded: &[SipHeader],
) -> (result: Result<(), EngineError>)
    ensures
        match (result, final_replay_check(status_code, successful, response@, recorded@)) {
            (Ok(()), Ok(())) => true,
            (Err(EngineError::MissingHeader(a)), Err(EngineError::MissingHeader(b))) => a@ == b@,
            (Err(a), Err(b)) => a == b,
            _ => false,
        },
{
    if status_code < 200 || (status_code < 300) != successful {
        return Err(EngineError::UnknownTransaction);
    }
    let call_id = match required_header(response, "Call-ID") {
        Ok(value) => value,
        Err(error) => return Err(error),
    };
    let recorded_call_id = match required_header(recorded, "Call-ID") {
        Ok(value) => value,
        Err(error) => return Err(error),
    };
    if !same_str(call_id, recorded_call_id) {
        return Err(EngineError::UnknownTransaction);
    }
    let cseq = match required_header(response, "CSeq") {
        Ok(value) => value,
        Err(error) => return Err(error),
    };
    let recorded_cseq = match required_header(recorded, "CSeq") {
        Ok(value) => value,
        Err(error) => return Err(error),
    };
    if !same_str(cseq, recorded_cseq) {
        return Err(EngineError::UnknownTransaction);
    }
    Ok(())
}

/// Hands out the next local dialog tag, `rust-` and the tag counter, and
/// advances the counter; a counter that cannot advance is a configuration
/// error and stays as it was.
pub fn allocate_local_tag(next_local_tag: &mut u64) -> (tag: Result<String, EngineError>)
    ensures
        *old(next_local_tag) == u64::MAX ==> tag == Err::<String, EngineError>(
            EngineError::InvalidConfig,
        ) && *final(next_local_tag) == u64::MAX,
        *old(next_local_tag) < u64::MAX ==> (tag matches Ok(text) && text@ == "rust-"@
            + decimal_digits(*old(next_local_tag) as nat) && *final(next_local_tag) == *old(
            next_local_tag,
        ) + 1),
{
    let sequence = *next_local_tag;
    match sequence.checked_add(1) {
        Some(next) => {
            *next_local_tag = next;
        },
        None => return Err(EngineError::InvalidConfig),
    }
    let mut tag = "rust-".to_owned();
    push_decimal(&mut tag, sequence);
    Ok(tag)
}

/// The method token of a request.
pub open spec fn method_token(method: SipMethod) -> Seq<char> {
    match method {
        SipMethod::Invite => "INVITE"@,
        SipMethod::Ack => "ACK"@,
        SipMethod::Bye => "BYE"@,
        SipMethod::Cancel => "CANCEL"@,
        SipMethod::Options => "OPTIONS"@,
        SipMethod::Other(token) => token@,
    }
}

impl SipMethod {
    /// The method's token as it appears on the request line.
    pub fn as_str(&self) -> (token: &str)
        ensures
            token@ == method_token(*self),
    {
        match self {
            SipMethod::Invite => "INVITE",
            SipMethod::Ack => "ACK",
            SipMethod::Bye => "BYE",
            SipMethod::Cancel => "CANCEL",
            SipMethod::Options => "OPTIONS",
            SipMethod::Other(token) => token.as_str(),
        }
    }
}

/// The key of a transaction: its branch, `:` and its method, so a CANCEL and
/// the INVITE it cancels share a branch but not a key.
pub fn transaction_key(branch: &str, method: &SipMethod) -> (key: String)
    ensures
        key@ == branch@ + ":"@ + method_token(*method),
{
    let mut key = branch.to_owned();
    push_text(&mut key, ":");
    push_text(&mut key, method.as_str());
    key
}

/// What polling needs of one live transaction: its key, its call and the
/// peer its messages go to.
pub struct EngineTransaction {
    pub key: String,
    pub call: Option<CallId>,
    pub destination: Option<u64>,
}

/// What a transaction's own timers reported when polled.
pub struct TransactionOutcome {
    /// The transaction's key.
    pub key: String,
    /// Its last message is due again.
    pub retransmit: bool,
    /// It gave up waiting.
    pub timed_out: bool,
    /// It reached its terminated state.
    pub terminated: bool,
}

/// A final 2xx response to an inbound INVITE kept for retransmission.
pub struct PendingFinal {
    pub key: String,
    pub destination: u64,
    pub timer: FinalInviteTimer,
}

/// The engine's transaction bookkeeping between polls.
pub struct EngineState {
    pub transactions: Vec<EngineTransaction>,
    pub finals: Vec<PendingFinal>,
    /// The transaction timer T2 that caps 2xx retransmission intervals.
    pub t2: MediaTime,
}

/// What polling asks the engine to do.
pub enum EngineAction {
    /// Send the transaction's last message again.
    Retransmit { key: String, destination: u64 },
    /// Send a kept final 2xx response again.
    RetransmitFinal { key: String, destination: u64 },
    /// Fail the call whose transaction timed out.
    FailCall { call: CallId },
}

/// An action by value.
pub enum ActionView {
    Retransmit(Seq<char>, u64),
    RetransmitFinal(Seq<char>, u64),
    FailCall(Seq<char>),
}

pub open spec fn action_view(action: EngineAction) -> ActionView {
    match action {
        EngineAction::Retransmit { key, destination } => ActionView::Retransmit(key@, destination),
        EngineAction::RetransmitFinal { key, destination } => ActionView::RetransmitFinal(
            key@,
            destination,
        ),
        EngineAction::FailCall { call } => ActionView::FailCall(call@),
    }
}

pub open spec fn action_views(actions: Seq<EngineAction>) -> Seq<ActionView> {
    actions.map_values(|action: EngineAction| action_view(action))
}

/// `i` is the first live transaction with the key.
pub open spec fn first_transaction(transactions: Seq<EngineTransaction>, key: Seq<char>, i: int) -> bool {
    &&& 0 <= i < transactions.len()
    &&& transactions[i].key@ == key
    &&& forall|j: int| 0 <= j < i ==> #[trigger] transactions[j].key@ != key
}

pub open spec fn transaction_of(transactions: Seq<EngineTransaction>, key: Seq<char>) -> Option<EngineTransaction> {
    if exists|i: int| first_transaction(transactions, key, i) {
        Some(transactions[choose|i: int| first_transaction(transactions, key, i)])
    } else {
        None
    }
}

/// The retransmissions the outcomes ask for, in outcome order: one per
/// outcome due again whose transaction is live and has a peer.
pub open spec fn retransmissions(transactions: Seq<EngineTransaction>, outcomes: Seq<TransactionOutcome>) -> Seq<
    ActionView,
>
    decreases outcomes.len(),
{
    if outcomes.len() == 0 {
        Seq::empty()
    } else {
        let outcome = outcomes.last();
        let earlier = retransmissions(transactions, outcomes.drop_last());
        match transaction_of(transactions, outcome.key@) {
            Some(transaction) => if outcome.retransmit && transaction.destination is Some {
                earlier.push(ActionView::Retransmit(outcome.key@, transaction.destination->Some_0))
            } else {
                earlier
            },
            None => earlier,
        }
    }
}

/// The calls of the live transactions that timed out, in outcome order.
pub open spec fn timed_out_calls(transactions: Seq<EngineTransaction>, outcomes: Seq<TransactionOutcome>) -> Seq<
    Seq<char>,
>
    decreases outcomes.len(),
{
    if outcomes.len() == 0 {
        Seq::empty()
    } else {
        let outcome = outcomes.last();
        let earlier = timed_out_calls(transactions, outcomes.drop_last());
        match transaction_of(transactions, outcome.key@) {
            Some(transaction) => if outcome.timed_out && transaction.call is Some {
                earlier.push(transaction.call->Some_0@)
            } else {
                earlier
            },
            None => earlier,
        }
    }
}

/// Whether some outcome reports the transaction with the key terminated.
pub open spec fn terminated_key(outcomes: Seq<TransactionOutcome>, key: Seq<char>) -> bool {
    exists|j: int| 0 <= j < outcomes.len() && (#[trigger] outcomes[j]).terminated && outcomes[j].key@ == key
}

/// The transactions that stay after polling: those no outcome reports
/// terminated.
pub open spec fn survives(outcomes: Seq<TransactionOutcome>) -> spec_fn(EngineTransaction) -> bool {
    |transaction: EngineTransaction| !terminated_key(outcomes, transaction.key@)
}

/// Whether a kept final response is due again at `now`.
pub open spec fn final_due(timer: FinalInviteTimer, now: MediaTime) -> bool {
    !timer.acknowledged && timer.next_retransmit is Some && timer.next_retransmit->Some_0@ <= now@
}

/// The final responses due again, in the order they are kept.
pub open spec fn final_retransmissions(finals: Seq<PendingFinal>, now: MediaTime) -> Seq<ActionView>
    decreases finals.len(),
{
    if finals.len() == 0 {
        Seq::empty()
    } else {
        let earlier = final_retransmissions(finals.drop_last(), now);
        if final_due(finals.last().timer, now) {
            earlier.push(ActionView::RetransmitFinal(finals.last().key@, finals.last().destination))
        } else {
            earlier
        }
    }
}

/// `after` is `before` polled at `now`: a due timer doubles its interval up
/// to T2 and is due again after it; any other timer is unchanged.
pub open spec fn polled(before: FinalInviteTimer, after: FinalInviteTimer, now: MediaTime, t2: MediaTime) -> bool {
    if final_due(before, now) {
        let interval = doubled_interval(before.retransmit_interval@, t2@);
        &&& after.retransmit_interval@ == interval
        &&& after.next_retransmit == Some(MediaTime::spec_from_nanos(media_sat_add(now@, interval)))
        &&& after.acknowledged == before.acknowledged
    } else {
        after == before
    }
}

pub open spec fn key_view(transactions: Seq<EngineTransaction>) -> Seq<Seq<char>> {
    transactions.map_values(|transaction: EngineTransaction| transaction.key@)
}

proof fn lemma_first_transaction_unique(transactions: Seq<EngineTransaction>, key: Seq<char>, i: int)
    requires
        first_transaction(transactions, key, i),
    ensures
        transaction_of(transactions, key) == Some(transactions[i]),
{
    let k = choose|k: int| first_transaction(transactions, key, k);
    assert(first_transaction(transactions, key, k));
    if k < i {
        assert(transactions[k].key@ != key);
    } else if i < k {
        assert(transactions[i].key@ != key);
    }
}

fn find_transaction(transactions: &Vec<EngineTransaction>, key: &String) -> (index: Option<usize>)
    ensures
        match index {
            Some(i) => i < transactions@.len() && transaction_of(transactions@, key@) == Some(
                transactions@[i as int],
            ),
            None => transaction_of(transactions@, key@) is None,
        },
{
    let mut i: usize = 0;
    while i < transactions.len()
        invariant
            i <= transactions@.len(),
            forall|j: int| 0 <= j < i ==> #[trigger] transactions@[j].key@ != key@,
        decreases transactions.len() - i,
    {
        if same_text(&transactions[i].key, key.as_str()) {
            proof {
                assert(first_transaction(transactions@, key@, i as int));
                lemma_first_transaction_unique(transactions@, key@, i as int);
            }
            return Some(i);
        }
        i = i + 1;
    }
    proof {
        assert(!exists|k: int| first_transaction(transactions@, key@, k));
    }
    None
}

fn is_terminated(outcomes: &[TransactionOutcome], key: &String) -> (terminated: bool)
    ensures
        terminated == terminated_key(outcomes@, key@),
{
    let mut j: usize = 0;
    while j < outcomes.len()
        invariant
            j <= outcomes@.len(),
            forall|k: int| 0 <= k < j ==> !((#[trigger] outcomes@[k]).terminated && outcomes@[k].key@ == key@),
        decreases outcomes.len() - j,
    {
        if outcomes[j].terminated && same_text(&outcomes[j].key, key.as_str()) {
            return true;
        }
        j = j + 1;
    }
    false
}

proof fn lemma_views_pushed(actions: Seq<EngineAction>, action: EngineAction)
    ensures
        action_views(actions.push(action)) == action_views(actions).push(action_view(action)),
{
    assert(action_views(actions.push(action)) =~= action_views(actions).push(action_view(action)));
}

/// Polls the engine's bookkeeping at `now` with what the transactions'
/// timers reported: asks for the due retransmissions in outcome order, then
/// for the kept final 2xx responses that are due (their intervals doubling up
/// to T2), and then fails every call whose transaction timed out, each once,
/// in identifier order; transactions reported terminated are dropped.
pub fn poll_plan(state: &mut EngineState, now: MediaTime, outcomes: &[TransactionOutcome]) -> (actions: Vec<EngineAction>)
    ensures
        ({
            let retransmitted = retransmissions(old(state).transactions@, outcomes@);
            let finals_due = final_retransmissions(old(state).finals@, now);
            let views = action_views(actions@);
            let fails = views.skip((retransmitted.len() + finals_due.len()) as int);
            let called = timed_out_calls(old(state).transactions@, outcomes@);
            &&& views.len() >= retransmitted.len() + finals_due.len()
            &&& views.take(retransmitted.len() as int) == retransmitted
            &&& views.subrange(retransmitted.len() as int, (retransmitted.len() + finals_due.len()) as int) == finals_due
            &&& forall|i: int| 0 <= i < fails.len() ==> (#[trigger] fails[i]) is FailCall
            &&& strictly_sorted(fails.map_values(|view: ActionView| view->FailCall_0))
            &&& forall|id: Seq<char>| fails.map_values(|view: ActionView| view->FailCall_0).contains(id)
                <==> called.contains(id)
        }),
        final(state).transactions@ == old(state).transactions@.filter(survives(outcomes@)),
        final(state).t2 == old(state).t2,
        final(state).finals@.len() == old(state).finals@.len(),
        forall|i: int|
            0 <= i < final(state).finals@.len() ==> {
                let before = old(state).finals@[i];
                let after = #[trigger] final(state).finals@[i];
                &&& after.key == before.key
                &&& after.destination == before.destination
                &&& polled(before.timer, after.timer, now, old(state).t2)
            },
{
    let mut actions: Vec<EngineAction> = Vec::new();
    let mut timed_out: Vec<CallId> = Vec::new();
    let ghost transactions = state.transactions@;
    let mut index: usize = 0;
    while index < outcomes.len()
        invariant
            index <= outcomes@.len(),
            transactions == state.transactions@,
            action_views(actions@) == retransmissions(transactions, outcomes@.take(index as int)),
            call_ids(timed_out@) == timed_out_calls(transactions, outcomes@.take(index as int)),
        decreases outcomes.len() - index,
    {
        let outcome = &outcomes[index];
        proof {
            let next = outcomes@.take(index + 1);
            assert(next.drop_last() =~= outcomes@.take(index as int));
            assert(next.last() == outcomes@[index as int]);
        }
        match find_transaction(&state.transactions, &outcome.key) {
            Some(position) => {
                let transaction = &state.transactions[position];
                if outcome.retransmit {
                    match transaction.destination {
                        Some(destination) => {
                            let action = EngineAction::Retransmit { key: outcome.key.clone(), destination };
                            proof {
                                lemma_views_pushed(actions@, action);
                            }
                            actions.push(action);
                        },
                        None => {},
                    }
                }
                if outcome.timed_out {
                    match &transaction.call {
                        Some(call) => {
                            let call = call.clone();
                            proof {
                                assert(call_ids(timed_out@.push(call)) =~= call_ids(timed_out@).push(call@));
                            }
                            timed_out.push(call);
                        },
                        None => {},
                    }
                }
            },
            None => {},
        }
        index = index + 1;
    }
    proof {
        assert(outcomes@.take(outcomes@.len() as int) =~= outcomes@);
    }
    let ghost retransmitted = action_views(actions@);
    let mut kept: Vec<EngineTransaction> = Vec::new();
    let mut old_transactions: Vec<EngineTransaction> = Vec::new();
    std::mem::swap(&mut old_transactions, &mut state.transactions);
    let mut position: usize = 0;
    while position < old_transactions.len()
        invariant
            position <= old_transactions@.len(),
            old_transactions@ == transactions,
            kept@ == transactions.take(position as int).filter(survives(outcomes@)),
        decreases old_transactions.len() - position,
    {
        proof {
            let next = transactions.take(position + 1);
            assert(next =~= transactions.take(position as int).push(transactions[position as int]));
            transactions.take(position as int).lemma_filter_push(
                transactions[position as int],
                survives(outcomes@),
            );
        }
        let ended = is_terminated(outcomes, &old_transactions[position].key);
        if !ended {
            let transaction = EngineTransaction {
                key: old_transactions[position].key.clone(),
                call: match &old_transactions[position].call {
                    Some(call) => Some(call.clone()),
                    None => None,
                },
                destination: old_transactions[position].destination,
            };
            proof {
                assert(transaction == transactions[position as int]);
            }
            kept.push(transaction);
        }
        position = position + 1;
    }
    proof {
        assert(transactions.take(transactions.len() as int) =~= transactions);
    }
    state.transactions = kept;
    let ghost finals_before = state.finals@;
    let t2 = state.t2;
    let mut f: usize = 0;
    while f < state.finals.len()
        invariant
            f <= state.finals@.len(),
            state.finals@.len() == finals_before.len(),
            state.t2 == t2,
            state.transactions@ == transactions.filter(survives(outcomes@)),
            forall|i: int| f <= i < finals_before.len() ==> #[trigger] state.finals@[i] == finals_before[i],
            forall|i: int|
                0 <= i < f ==> {
                    let before = finals_before[i];
                    let after = #[trigger] state.finals@[i];
                    &&& after.key == before.key
                    &&& after.destination == before.destination
                    &&& polled(before.timer, after.timer, now, t2)
                },
            action_views(actions@) == retransmitted + final_retransmissions(finals_before.take(f as int), now),
        decreases state.finals.len() - f,
    {
        proof {
            let next = finals_before.take(f + 1);
            assert(next.drop_last() =~= finals_before.take(f as int));
            assert(next.last() == finals_before[f as int]);
        }
        let mut timer = state.finals[f].timer;
        let due = timer.poll(now, t2);
        if due {
            let action = EngineAction::RetransmitFinal {
                key: state.finals[f].key.clone(),
                destination: state.finals[f].destination,
            };
            proof {
                lemma_views_pushed(actions@, action);
            }
            actions.push(action);
        }
        let updated = PendingFinal {
            key: state.finals[f].key.clone(),
            destination: state.finals[f].destination,
            timer,
        };
        state.finals.set(f, updated);
        f = f + 1;
    }
    proof {
        assert(finals_before.take(finals_before.len() as int) =~= finals_before);
    }
    let ghost before_fails = actions@;
    let order = timed_out_order(timed_out.as_slice());
    let mut k: usize = 0;
    while k < order.len()
        invariant
            k <= order@.len(),
            actions@.len() == before_fails.len() + k,
            actions@.take(before_fails.len() as int) == before_fails,
            forall|i: int| 0 <= i < k ==> #[trigger] actions@[before_fails.len() + i] == (EngineAction::FailCall { call: order@[i] }),
        decreases order.len() - k,
    {
        actions.push(EngineAction::FailCall { call: order[k].clone() });
        k = k + 1;
    }
    proof {
        let views = action_views(actions@);
        let offset = before_fails.len() as int;
        assert(views.take(offset) =~= action_views(before_fails));
        let fails = views.skip(offset);
        assert forall|i: int| 0 <= i < fails.len() implies (#[trigger] fails[i]) == ActionView::FailCall(
            order@[i]@,
        ) by {
            assert(actions@[offset + i] == (EngineAction::FailCall { call: order@[i] }));
            assert(fails[i] == views[offset + i]);
        }
        assert(fails.map_values(|view: ActionView| view->FailCall_0) =~= call_ids(order@));
        assert(call_ids(timed_out@) == timed_out_calls(transactions, outcomes@));
        let retransmitted_all = retransmissions(transactions, outcomes@);
        let finals_due = final_retransmissions(finals_before, now);
        assert(action_views(before_fails) == retransmitted_all + finals_due);
        assert(views.take(retransmitted_all.len() as int) =~= retransmitted_all);
        assert forall|i: int| 0 <= i < finals_due.len() implies views[retransmitted_all.len() + i]
            == finals_due[i] by {
            assert(views.take(offset)[retransmitted_all.len() + i] == views[retransmitted_all.len() + i]);
            assert((retransmitted_all + finals_due)[retransmitted_all.len() + i] == finals_due[i]);
        }
        assert(views.subrange(retransmitted_all.len() as int, (retransmitted_all.len() + finals_due.len()) as int) =~= finals_due);
        assert(offset == retransmitted_all.len() + finals_due.len());
    }
    actions
}

} // verus!
