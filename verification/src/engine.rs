//! The message-level rules of the SIP call engine: how headers are looked up
//! under full and compact names, how a transaction branch and a dialog tag are
//! read, how responses and ACKs are assembled, and which call command a
//! response status drives. Transports, transaction timers and dialog state
//! live outside this module; messages are held as ordered header fields.

use vstd::prelude::*;

use crate::call_api::{ApiError, CallCommand};
use crate::call_core::{valid_transition, CallState};
use crate::text::{collect_chars, decimal_digits, push_decimal, push_text, text_of};

verus! {

/// Longest transaction branch accepted from a `Via` header.
pub const DEFAULT_MAX_BRANCH_BYTES: usize = 256;

/// Errors raised while composing SIP transactions, dialogs, and calls.
#[derive(Clone, Copy, Debug, PartialEq, Eq)]
pub enum EngineError {
    /// A configured engine bound was zero.
    InvalidConfig,
    /// The transaction bound was reached.
    TransactionLimitReached,
    /// A required SIP header was absent.
    MissingHeader(&'static str),
    /// A Via header did not contain a usable transaction branch.
    InvalidBranch,
    /// A CSeq header did not contain a usable method.
    InvalidCSeq,
    /// A transaction branch is already active.
    DuplicateTransaction,
    /// No active transaction matched a SIP response.
    UnknownTransaction,
    /// No call/dialog matched the SIP Call-ID.
    UnknownDialog,
    /// The request is outside the provider-neutral basic-call surface.
    UnsupportedRequest,
    /// The requested call is not an inbound INVITE transaction.
    NotInboundInvite,
    /// The supplied status code cannot be used for the requested operation.
    InvalidResponseStatus,
    /// The call-control registry rejected an operation.
    CallApi(ApiError),
}

impl From<ApiError> for EngineError {
    fn from(error: ApiError) -> (converted: Self) {
        EngineError::CallApi(error)
    }
}

impl vstd::std_specs::convert::FromSpecImpl<ApiError> for EngineError {
    open spec fn obeys_from_spec() -> bool {
        true
    }

    open spec fn from_spec(error: ApiError) -> Self {
        EngineError::CallApi(error)
    }
}

/// One SIP header field: its name as written and its value.
pub struct SipHeader {
    pub name: String,
    pub value: String,
}

/// The call command a final or provisional response status drives in a call
/// state: `183` gives early media while inviting, `180` rings an inviting or
/// early call, a `2xx` answers a call that is inviting, early or ringing, and
/// `300`-`699` fails any call that is not already ending, ended or failed.
pub open spec fn response_command(state: CallState, status_code: u16) -> Option<CallCommand> {
    if status_code == 183 && state == CallState::Inviting {
        Some(CallCommand::EarlyMedia)
    } else if status_code == 180 && (state == CallState::Inviting || state == CallState::Early) {
        Some(CallCommand::Ringing)
    } else if 200 <= status_code <= 299 && (state == CallState::Inviting || state
        == CallState::Early || state == CallState::Ringing) {
        Some(CallCommand::Answer)
    } else if 300 <= status_code <= 699 && !(state == CallState::Ended || state == CallState::Failed
        || state == CallState::Ending) {
        Some(CallCommand::Fail)
    } else {
        None
    }
}

/// Maps a response status received in a call state to the call command it
/// implies, if any.
pub fn response_call_command(state: CallState, status_code: u16) -> (command: Option<CallCommand>)
    ensures
        command == response_command(state, status_code),
{
    if status_code == 183 {
        if state == CallState::Inviting {
            return Some(CallCommand::EarlyMedia);
        }
        return None;
    }
    if status_code == 180 {
        if state == CallState::Inviting || state == CallState::Early {
            return Some(CallCommand::Ringing);
        }
        return None;
    }
    if 200 <= status_code && status_code <= 299 {
        if state == CallState::Inviting || state == CallState::Early || state == CallState::Ringing {
            return Some(CallCommand::Answer);
        }
        return None;
    }
    if 300 <= status_code && status_code <= 699 {
        if !(state == CallState::Ended || state == CallState::Failed || state == CallState::Ending) {
            return Some(CallCommand::Fail);
        }
        return None;
    }
    None
}

/// Unicode white space, the characters `str::trim` removes.
pub open spec fn is_white_space(c: char) -> bool {
    ||| '\u{9}' <= c <= '\u{d}'
    ||| c == ' '
    ||| c == '\u{85}'
    ||| c == '\u{a0}'
    ||| c == '\u{1680}'
    ||| '\u{2000}' <= c <= '\u{200a}'
    ||| c == '\u{2028}'
    ||| c == '\u{2029}'
    ||| c == '\u{202f}'
    ||| c == '\u{205f}'
    ||| c == '\u{3000}'
}

pub open spec fn all_white_space(s: Seq<char>) -> bool {
    forall|j: int| 0 <= j < s.len() ==> is_white_space(#[trigger] s[j])
}

/// The parameter name `tag` in any ASCII letter case.
pub open spec fn is_tag_name(s: Seq<char>) -> bool {
    &&& s.len() == 3
    &&& (s[0] == 't' || s[0] == 'T')
    &&& (s[1] == 'a' || s[1] == 'A')
    &&& (s[2] == 'g' || s[2] == 'G')
}

/// One header parameter is a tag: after leading white space it reads `tag`
/// (any case), then `=`, then a value that is not all white space.
pub open spec fn is_tag_parameter(p: Seq<char>) -> bool {
    exists|k: int|
        #![trigger p.take(k)]
        0 <= k && k + 4 <= p.len() && all_white_space(p.take(k)) && is_tag_name(
            p.subrange(k, k + 3),
        ) && p[k + 3] == '=' && !all_white_space(p.skip(k + 4))
}

/// `value[start + 1 .. end]` is the header parameter that follows the `;` at
/// `start`.
pub open spec fn is_parameter(value: Seq<char>, start: int, end: int) -> bool {
    &&& 0 <= start < end <= value.len()
    &&& value[start] == ';'
    &&& forall|j: int| start < j < end ==> #[trigger] value[j] != ';'
    &&& (end == value.len() || value[end] == ';')
}

/// A header value (such as a `To` value) carries a non-empty `tag` parameter.
pub open spec fn has_tag(value: Seq<char>) -> bool {
    exists|start: int, end: int|
        is_parameter(value, start, end) && #[trigger] is_tag_parameter(
            value.subrange(start + 1, end),
        )
}

fn is_white_space_char(c: char) -> (white: bool)
    ensures
        white == is_white_space(c),
{
    ('\u{9}' <= c && c <= '\u{d}') || c == ' ' || c == '\u{85}' || c == '\u{a0}' || c == '\u{1680}'
        || ('\u{2000}' <= c && c <= '\u{200a}') || c == '\u{2028}' || c == '\u{2029}' || c
        == '\u{202f}' || c == '\u{205f}' || c == '\u{3000}'
}

/// Whether `chars[from..to]` holds a character that is not white space.
fn has_non_white_space(chars: &Vec<char>, from: usize, to: usize) -> (found: bool)
    requires
        from <= to <= chars@.len(),
    ensures
        found == !all_white_space(chars@.subrange(from as int, to as int)),
{
    let ghost part = chars@.subrange(from as int, to as int);
    let mut index = from;
    while index < to
        invariant
            from <= index <= to,
            to <= chars@.len(),
            part == chars@.subrange(from as int, to as int),
            forall|j: int| from <= j < index ==> is_white_space(#[trigger] chars@[j]),
        decreases to - index,
    {
        if !is_white_space_char(chars[index]) {
            proof {
                assert(part[index - from] == chars@[index as int]);
            }
            return true;
        }
        index = index + 1;
    }
    proof {
        assert forall|j: int| 0 <= j < part.len() implies is_white_space(#[trigger] part[j]) by {
            assert(part[j] == chars@[from + j]);
        }
    }
    false
}

/// Whether the parameter `chars[from..to]` is a non-empty `tag`.
fn parameter_is_tag(chars: &Vec<char>, from: usize, to: usize) -> (tag: bool)
    requires
        from <= to <= chars@.len(),
    ensures
        tag == is_tag_parameter(chars@.subrange(from as int, to as int)),
{
    let ghost p = chars@.subrange(from as int, to as int);
    let mut k = from;
    while k < to && is_white_space_char(chars[k])
        invariant
            from <= k <= to,
            to <= chars@.len(),
            forall|j: int| from <= j < k ==> is_white_space(#[trigger] chars@[j]),
        decreases to - k,
    {
        k = k + 1;
    }
    let ghost lead = k - from;
    proof {
        assert forall|j: int| 0 <= j < p.take(lead).len() implies is_white_space(
            #[trigger] p.take(lead)[j],
        ) by {
            assert(p.take(lead)[j] == chars@[from + j]);
        }
        assert forall|m: int|
            0 <= m && m + 4 <= p.len() && all_white_space(p.take(m)) && is_tag_name(
                p.subrange(m, m + 3),
            ) implies m == lead by {
            assert(p[m] == p.subrange(m, m + 3)[0]);
            assert(!is_white_space(p[m]));
            if m < lead {
                assert(p[m] == chars@[from + m]);
            } else if lead < m {
                assert(p.take(m)[lead] == p[lead]);
                assert(p[lead] == chars@[k as int]);
            }
        }
    }
    if to - k < 4 {
        return false;
    }
    let c0 = chars[k];
    let c1 = chars[k + 1];
    let c2 = chars[k + 2];
    let name = (c0 == 't' || c0 == 'T') && (c1 == 'a' || c1 == 'A') && (c2 == 'g' || c2 == 'G');
    proof {
        let n = p.subrange(lead, lead + 3);
        assert(n[0] == c0 && n[1] == c1 && n[2] == c2);
        assert(p[lead + 3] == chars@[k + 3]);
        assert(p.skip(lead + 4) =~= chars@.subrange(k + 4, to as int));
    }
    if !name || chars[k + 3] != '=' {
        return false;
    }
    let found = has_non_white_space(chars, k + 4, to);
    proof {
        if found {
            assert(all_white_space(p.take(lead)));
            assert(is_tag_name(p.subrange(lead, lead + 3)));
            assert(!all_white_space(p.skip(lead + 4)));
        }
    }
    found
}

/// Whether a header value carries a non-empty `tag` parameter (any case),
/// looking at every `;`-separated parameter after the first element.
pub fn value_has_tag(value: &str) -> (tagged: bool)
    ensures
        tagged == has_tag(value@),
{
    let chars = collect_chars(value);
    let ghost v = value@;
    let len = chars.len();
    let mut start: usize = 0;
    while start < len && chars[start] != ';'
        invariant
            chars@ == v,
            len == v.len(),
            start <= len,
            forall|j: int| 0 <= j < start ==> #[trigger] v[j] != ';',
        decreases len - start,
    {
        start = start + 1;
    }
    if start == len {
        proof {
            assert forall|s: int, e: int| is_parameter(v, s, e) implies !#[trigger] is_tag_parameter(
                v.subrange(s + 1, e),
            ) by {
                assert(v[s] == ';');
            }
        }
        return false;
    }
    loop
        invariant
            v == value@,
            chars@ == v,
            len == v.len(),
            start < len,
            v[start as int] == ';',
            forall|s: int, e: int|
                s < start && is_parameter(v, s, e) ==> !#[trigger] is_tag_parameter(
                    v.subrange(s + 1, e),
                ),
        decreases len - start,
    {
        let mut end = start + 1;
        while end < len && chars[end] != ';'
            invariant
                chars@ == v,
                len == v.len(),
                start < end <= len,
                forall|j: int| start < j < end ==> #[trigger] v[j] != ';',
            decreases len - end,
        {
            end = end + 1;
        }
        proof {
            assert(is_parameter(v, start as int, end as int));
            assert forall|s: int, e: int|
                start <= s < end && is_parameter(v, s, e) implies s == start && e == end by {
                if s > start {
                    assert(v[s] != ';');
                }
                if e < end {
                    assert(v[e] != ';');
                } else if e > end {
                    assert(v[end as int] == ';');
                }
            }
        }
        let tagged = parameter_is_tag(&chars, start + 1, end);
        proof {
            assert(chars@.subrange((start + 1) as int, end as int) == v.subrange(
                start as int + 1,
                end as int,
            ));
        }
        if tagged {
            proof {
                assert(is_tag_parameter(v.subrange(start as int + 1, end as int)));
            }
            return true;
        }
        if end == len {
            proof {
                assert forall|s: int, e: int| is_parameter(v, s, e) implies !#[trigger] is_tag_parameter(
                    v.subrange(s + 1, e),
                ) by {
                    if s > start {
                        assert(start < s < end);
                        assert(v[s] != ';');
                    }
                }
            }
            return false;
        }
        start = end;
    }
}

/// A character with ASCII upper-case letters folded to lower case.
pub open spec fn ascii_lower(c: char) -> char {
    if 'A' <= c && c <= 'Z' {
        ((c as u32) + 32) as char
    } else {
        c
    }
}

/// Equality of two texts up to ASCII letter case, as `str::eq_ignore_ascii_case`
/// decides it.
pub open spec fn same_ignoring_ascii_case(a: Seq<char>, b: Seq<char>) -> bool {
    &&& a.len() == b.len()
    &&& forall|i: int| 0 <= i < a.len() ==> ascii_lower(#[trigger] a[i]) == ascii_lower(b[i])
}

fn fold_ascii(c: char) -> (folded: char)
    ensures
        folded == ascii_lower(c),
{
    if 'A' <= c && c <= 'Z' {
        ((c as u32) + 32) as u8 as char
    } else {
        c
    }
}

/// Whether two texts are equal up to ASCII letter case.
fn eq_ignore_ascii_case(a: &str, b: &str) -> (same: bool)
    ensures
        same == same_ignoring_ascii_case(a@, b@),
{
    let left = collect_chars(a);
    let right = collect_chars(b);
    if left.len() != right.len() {
        return false;
    }
    let mut index: usize = 0;
    while index < left.len()
        invariant
            left@ == a@,
            right@ == b@,
            left@.len() == right@.len(),
            index <= left@.len(),
            forall|j: int| 0 <= j < index ==> ascii_lower(#[trigger] left@[j]) == ascii_lower(right@[j]),
        decreases left.len() - index,
    {
        if fold_ascii(left[index]) != fold_ascii(right[index]) {
            return false;
        }
        index = index + 1;
    }
    true
}

/// Whether two texts are identical.
fn same_text(a: &str, b: &str) -> (same: bool)
    ensures
        same == (a@ == b@),
{
    let left = collect_chars(a);
    let right = collect_chars(b);
    if left.len() != right.len() {
        return false;
    }
    let mut index: usize = 0;
    while index < left.len()
        invariant
            left@ == a@,
            right@ == b@,
            left@.len() == right@.len(),
            index <= left@.len(),
            forall|j: int| 0 <= j < index ==> #[trigger] left@[j] == right@[j],
        decreases left.len() - index,
    {
        if left[index] != right[index] {
            return false;
        }
        index = index + 1;
    }
    proof {
        assert(left@ =~= right@);
    }
    true
}

/// The names a header may be written under: the compact form of `Via`,
/// `From`, `To`, `Call-ID` and `CSeq` besides the full one.
pub open spec fn header_aliases(name: Seq<char>) -> Seq<Seq<char>> {
    if name == "Via"@ {
        seq![name, "v"@]
    } else if name == "From"@ {
        seq![name, "f"@]
    } else if name == "To"@ {
        seq![name, "t"@]
    } else if name == "Call-ID"@ {
        seq![name, "i"@]
    } else if name == "CSeq"@ {
        seq![name, "c"@]
    } else {
        seq![name]
    }
}

/// Whether a header is written under one of the names of `name`, in any
/// ASCII letter case.
pub open spec fn is_named(header: SipHeader, name: Seq<char>) -> bool {
    exists|k: int|
        0 <= k < header_aliases(name).len() && same_ignoring_ascii_case(
            header.name@,
            #[trigger] header_aliases(name)[k],
        )
}

/// `i` is the first header named `name`.
pub open spec fn first_named(headers: Seq<SipHeader>, name: Seq<char>, i: int) -> bool {
    &&& 0 <= i < headers.len()
    &&& is_named(headers[i], name)
    &&& forall|j: int| 0 <= j < i ==> !is_named(#[trigger] headers[j], name)
}

/// The value of the first header named `name`, if any.
pub open spec fn header_text(headers: Seq<SipHeader>, name: Seq<char>) -> Option<Seq<char>> {
    if exists|i: int| first_named(headers, name, i) {
        Some(headers[choose|i: int| first_named(headers, name, i)].value@)
    } else {
        None
    }
}

proof fn lemma_first_named_unique(headers: Seq<SipHeader>, name: Seq<char>, i: int)
    requires
        first_named(headers, name, i),
    ensures
        header_text(headers, name) == Some(headers[i].value@),
{
    let k = choose|k: int| first_named(headers, name, k);
    assert(first_named(headers, name, k));
    if k < i {
        assert(!is_named(headers[k], name));
    } else if i < k {
        assert(!is_named(headers[i], name));
    }
}

fn name_matches(header_name: &str, name: &str, compact: Option<&str>) -> (matches: bool)
    ensures
        matches == (same_ignoring_ascii_case(header_name@, name@) || (compact matches Some(
            alias,
        ) && same_ignoring_ascii_case(header_name@, alias@))),
{
    if eq_ignore_ascii_case(header_name, name) {
        return true;
    }
    match compact {
        Some(alias) => eq_ignore_ascii_case(header_name, alias),
        None => false,
    }
}

/// The compact alias of a header name, if it has one.
fn compact_alias(name: &str) -> (alias: Option<&'static str>)
    ensures
        alias is None ==> header_aliases(name@) == seq![name@],
        alias matches Some(a) ==> header_aliases(name@) == seq![name@, a@],
{
    if same_text(name, "Via") {
        Some("v")
    } else if same_text(name, "From") {
        Some("f")
    } else if same_text(name, "To") {
        Some("t")
    } else if same_text(name, "Call-ID") {
        Some("i")
    } else if same_text(name, "CSeq") {
        Some("c")
    } else {
        None
    }
}

/// The value of the first header written under `name` or its compact form,
/// compared in any ASCII letter case.
pub fn header_value<'a>(headers: &'a [SipHeader], name: &str) -> (value: Option<&'a str>)
    ensures
        match value {
            Some(text) => header_text(headers@, name@) == Some(text@),
            None => header_text(headers@, name@) is None,
        },
{
    let compact = compact_alias(name);
    let ghost aliases = header_aliases(name@);
    let mut index: usize = 0;
    while index < headers.len()
        invariant
            aliases == header_aliases(name@),
            compact is None ==> aliases == seq![name@],
            compact matches Some(a) ==> aliases == seq![name@, a@],
            index <= headers@.len(),
            forall|j: int| 0 <= j < index ==> !is_named(#[trigger] headers@[j], name@),
        decreases headers.len() - index,
    {
        let matches = name_matches(headers[index].name.as_str(), name, compact);
        proof {
            let header = headers@[index as int];
            if matches {
                if same_ignoring_ascii_case(header.name@, name@) {
                    assert(same_ignoring_ascii_case(header.name@, aliases[0]));
                } else {
                    assert(same_ignoring_ascii_case(header.name@, aliases[1]));
                }
            } else {
                assert forall|k: int| 0 <= k < aliases.len() implies !same_ignoring_ascii_case(
                    header.name@,
                    #[trigger] aliases[k],
                ) by {
                    if k == 1 {
                        assert(compact is Some);
                    }
                }
            }
        }
        if matches {
            proof {
                assert(first_named(headers@, name@, index as int));
                lemma_first_named_unique(headers@, name@, index as int);
            }
            return Some(headers[index].value.as_str());
        }
        index = index + 1;
    }
    proof {
        assert(!exists|i: int| first_named(headers@, name@, i));
    }
    None
}

/// The value of a header a message cannot do without.
pub fn required_header<'a>(headers: &'a [SipHeader], name: &'static str) -> (value: Result<
    &'a str,
    EngineError,
>)
    ensures
        match value {
            Ok(text) => header_text(headers@, name@) == Some(text@),
            Err(error) => header_text(headers@, name@) is None && error == EngineError::MissingHeader(
                name,
            ),
        },
{
    match header_value(headers, name) {
        Some(value) => Ok(value),
        None => Err(EngineError::MissingHeader(name)),
    }
}

/// `s[a..b]` is `s` without its leading and trailing white space (an
/// all-white-space text trims to nothing at its end).
pub open spec fn is_trim(s: Seq<char>, a: int, b: int) -> bool {
    &&& 0 <= a <= b <= s.len()
    &&& all_white_space(s.take(a))
    &&& all_white_space(s.skip(b))
    &&& (a < b ==> !is_white_space(s[a]) && !is_white_space(s[b - 1]))
    &&& (a == b ==> a == s.len())
}

/// A text without its leading and trailing white space, as `str::trim` gives it.
pub open spec fn trimmed(s: Seq<char>) -> Seq<char> {
    let (a, b) = choose|a: int, b: int| is_trim(s, a, b);
    s.subrange(a, b)
}

proof fn lemma_trim_unique(s: Seq<char>, a: int, b: int)
    requires
        is_trim(s, a, b),
    ensures
        trimmed(s) == s.subrange(a, b),
{
    let (a2, b2) = choose|a2: int, b2: int| is_trim(s, a2, b2);
    assert(is_trim(s, a2, b2));
    if a < b {
        if a2 < a {
            assert(s.take(a)[a2] == s[a2]);
            if a2 < b2 {
                assert(!is_white_space(s[a2]));
            }
        } else if a < a2 {
            assert(s.take(a2)[a] == s[a]);
        }
        if b2 < b {
            assert(s.skip(b2)[b - 1 - b2] == s[b - 1]);
        } else if b < b2 {
            assert(s.skip(b)[b2 - 1 - b] == s[b2 - 1]);
            if a2 < b2 {
                assert(!is_white_space(s[b2 - 1]));
            }
        }
    } else {
        if a2 < b2 {
            assert(s.take(a)[a2] == s[a2]);
        }
    }
}

/// `m` is the position of the first `c` in `t`.
pub open spec fn is_first_of(t: Seq<char>, c: char, m: int) -> bool {
    &&& 0 <= m < t.len()
    &&& t[m] == c
    &&& forall|j: int| 0 <= j < m ==> #[trigger] t[j] != c
}

/// The first comma-separated element of a header value.
pub open spec fn first_element(via: Seq<char>) -> Seq<char> {
    if exists|m: int| is_first_of(via, ',', m) {
        via.take(choose|m: int| is_first_of(via, ',', m))
    } else {
        via
    }
}

proof fn lemma_first_of_unique(t: Seq<char>, c: char, m: int)
    requires
        is_first_of(t, c, m),
    ensures
        (choose|k: int| is_first_of(t, c, k)) == m,
{
    let k = choose|k: int| is_first_of(t, c, k);
    assert(is_first_of(t, c, k));
    if k < m {
        assert(t[k] != c);
    } else if m < k {
        assert(t[m] != c);
    }
}

/// The value of a parameter named `branch` (any letter case) directly before
/// its first `=`, with white space trimmed around the parameter and around
/// the value.
pub open spec fn branch_value(p: Seq<char>) -> Option<Seq<char>> {
    let t = trimmed(p);
    if exists|m: int| is_first_of(t, '=', m) {
        let m = choose|m: int| is_first_of(t, '=', m);
        if same_ignoring_ascii_case(t.take(m), "branch"@) {
            Some(trimmed(t.skip(m + 1)))
        } else {
            None
        }
    } else {
        None
    }
}

/// The parameter of `first` after the `;` at `start` is the first one that
/// names a branch.
pub open spec fn first_branch_parameter(first: Seq<char>, start: int, end: int) -> bool {
    &&& is_parameter(first, start, end)
    &&& branch_value(first.subrange(start + 1, end)) is Some
    &&& forall|s: int, e: int|
        s < start && is_parameter(first, s, e) ==> #[trigger] branch_value(
            first.subrange(s + 1, e),
        ) is None
}

/// The branch the first `branch` parameter of a `Via` element names, if any.
pub open spec fn via_branch(first: Seq<char>) -> Option<Seq<char>> {
    if exists|start: int, end: int| first_branch_parameter(first, start, end) {
        let (start, end) = choose|start: int, end: int| first_branch_parameter(first, start, end);
        branch_value(first.subrange(start + 1, end))
    } else {
        None
    }
}

/// A usable transaction branch: non-empty printable ASCII of at most
/// [`DEFAULT_MAX_BRANCH_BYTES`] bytes.
pub open spec fn valid_branch(branch: Seq<char>) -> bool {
    &&& 0 < branch.len() <= DEFAULT_MAX_BRANCH_BYTES
    &&& crate::text::all_graphic(branch)
}

/// What the transaction branch of a message's headers is: the branch of the
/// first element of its first `Via` header when usable.
pub open spec fn branch_of(headers: Seq<SipHeader>) -> Result<Seq<char>, Option<Seq<char>>> {
    match header_text(headers, "Via"@) {
        None => Err(None),
        Some(via) => match via_branch(first_element(via)) {
            Some(branch) => if valid_branch(branch) {
                Ok(branch)
            } else {
                Err(Some(via))
            },
            None => Err(Some(via)),
        },
    }
}

proof fn lemma_first_branch_unique(first: Seq<char>, start: int, end: int)
    requires
        first_branch_parameter(first, start, end),
    ensures
        via_branch(first) == branch_value(first.subrange(start + 1, end)),
{
    let (s2, e2) = choose|s2: int, e2: int| first_branch_parameter(first, s2, e2);
    assert(first_branch_parameter(first, s2, e2));
    if s2 < start {
        assert(branch_value(first.subrange(s2 + 1, e2)) is None);
    } else if start < s2 {
        assert(branch_value(first.subrange(start + 1, end)) is None);
    } else {
        if e2 < end {
            assert(first[e2] != ';');
        } else if end < e2 {
            assert(first[end] != ';');
        }
    }
}

/// The trimmed bounds of `chars[from..to]`.
fn trim_range(chars: &Vec<char>, from: usize, to: usize) -> (bounds: (usize, usize))
    requires
        from <= to <= chars@.len(),
    ensures
        from <= bounds.0 <= bounds.1 <= to,
        is_trim(chars@.subrange(from as int, to as int), bounds.0 - from, bounds.1 - from),
{
    let ghost p = chars@.subrange(from as int, to as int);
    let mut a = from;
    while a < to && is_white_space_char(chars[a])
        invariant
            from <= a <= to,
            to <= chars@.len(),
            forall|j: int| from <= j < a ==> is_white_space(#[trigger] chars@[j]),
        decreases to - a,
    {
        a = a + 1;
    }
    let mut b = to;
    while b > a && is_white_space_char(chars[b - 1])
        invariant
            from <= a <= b <= to,
            to <= chars@.len(),
            a < to ==> !is_white_space(chars@[a as int]),
            forall|j: int| b <= j < to ==> is_white_space(#[trigger] chars@[j]),
        decreases b - a,
    {
        b = b - 1;
    }
    proof {
        let ra = a - from;
        let rb = b - from;
        assert forall|j: int| 0 <= j < p.take(ra).len() implies is_white_space(#[trigger] p.take(ra)[j]) by {
            assert(p.take(ra)[j] == chars@[from + j]);
        }
        assert forall|j: int| 0 <= j < p.skip(rb).len() implies is_white_space(#[trigger] p.skip(rb)[j]) by {
            assert(p.skip(rb)[j] == chars@[b + j]);
        }
        if a < b {
            assert(p[ra] == chars@[a as int]);
            assert(p[rb - 1] == chars@[b - 1]);
        }
    }
    (a, b)
}

/// The bounds of the branch value that the parameter `chars[from..to]` names,
/// if it is a `branch` parameter.
fn parameter_branch(chars: &Vec<char>, from: usize, to: usize) -> (value: Option<(usize, usize)>)
    requires
        from <= to <= chars@.len(),
    ensures
        match value {
            Some((x, y)) => from <= x <= y <= to && branch_value(
                chars@.subrange(from as int, to as int),
            ) == Some(chars@.subrange(x as int, y as int)),
            None => branch_value(chars@.subrange(from as int, to as int)) is None,
        },
{
    let ghost p = chars@.subrange(from as int, to as int);
    let (a, b) = trim_range(chars, from, to);
    let ghost t = chars@.subrange(a as int, b as int);
    proof {
        lemma_trim_unique(p, a - from, b - from);
        assert(p.subrange(a - from, b - from) =~= t);
    }
    let mut m = a;
    while m < b && chars[m] != '='
        invariant
            from <= a <= m <= b <= to,
            to <= chars@.len(),
            t == chars@.subrange(a as int, b as int),
            forall|j: int| a <= j < m ==> #[trigger] chars@[j] != '=',
        decreases b - m,
    {
        m = m + 1;
    }
    if m == b {
        proof {
            assert forall|k: int| !is_first_of(t, '=', k) by {
                if 0 <= k < t.len() {
                    assert(t[k] == chars@[a + k]);
                }
            }
        }
        return None;
    }
    let ghost rm = m - a;
    proof {
        assert forall|j: int| 0 <= j < rm implies #[trigger] t[j] != '=' by {
            assert(t[j] == chars@[a + j]);
        }
        assert(t[rm] == chars@[m as int]);
        assert(is_first_of(t, '=', rm));
        lemma_first_of_unique(t, '=', rm);
    }
    let name = text_of(chars, a, m);
    proof {
        assert(name@ =~= t.take(rm));
    }
    if !eq_ignore_ascii_case(name.as_str(), "branch") {
        return None;
    }
    let (x, y) = trim_range(chars, m + 1, b);
    proof {
        assert(t.skip(rm + 1) =~= chars@.subrange(m + 1, b as int));
        lemma_trim_unique(chars@.subrange(m + 1, b as int), x - (m + 1), y - (m + 1));
        assert(chars@.subrange(m + 1, b as int).subrange(x - (m + 1), y - (m + 1)) =~= chars@.subrange(
            x as int,
            y as int,
        ));
    }
    Some((x, y))
}

fn is_graphic_range(chars: &Vec<char>, from: usize, to: usize) -> (graphic: bool)
    requires
        from <= to <= chars@.len(),
    ensures
        graphic == crate::text::all_graphic(chars@.subrange(from as int, to as int)),
{
    let ghost part = chars@.subrange(from as int, to as int);
    let mut index = from;
    while index < to
        invariant
            from <= index <= to,
            to <= chars@.len(),
            part == chars@.subrange(from as int, to as int),
            forall|j: int| from <= j < index ==> crate::text::is_graphic_char(#[trigger] chars@[j]),
        decreases to - index,
    {
        let c = chars[index];
        if !('!' <= c && c <= '~') {
            proof {
                assert(part[index - from] == c);
            }
            return false;
        }
        index = index + 1;
    }
    proof {
        assert forall|j: int| 0 <= j < part.len() implies crate::text::is_graphic_char(#[trigger] part[j]) by {
            assert(part[j] == chars@[from + j]);
        }
    }
    true
}

/// The transaction branch of a message: the `branch` parameter of the first
/// element of its first `Via` header, which must be non-empty printable ASCII
/// of at most [`DEFAULT_MAX_BRANCH_BYTES`] bytes.
pub fn transaction_branch(headers: &[SipHeader]) -> (result: Result<String, EngineError>)
    ensures
        match result {
            Ok(branch) => branch_of(headers@) == Ok::<Seq<char>, Option<Seq<char>>>(branch@),
            Err(error) => match branch_of(headers@) {
                Ok(_) => false,
                Err(None) => error matches EngineError::MissingHeader(name) && name@ == "Via"@,
                Err(Some(_)) => error == EngineError::InvalidBranch,
            },
        },
{
    let via = match required_header(headers, "Via") {
        Ok(via) => via,
        Err(error) => return Err(error),
    };
    let chars = collect_chars(via);
    let ghost v = via@;
    let len = chars.len();
    let mut limit: usize = 0;
    while limit < len && chars[limit] != ','
        invariant
            chars@ == v,
            len == v.len(),
            limit <= len,
            forall|j: int| 0 <= j < limit ==> #[trigger] v[j] != ',',
        decreases len - limit,
    {
        limit = limit + 1;
    }
    let ghost first = v.take(limit as int);
    proof {
        if limit < len {
            assert(is_first_of(v, ',', limit as int));
            lemma_first_of_unique(v, ',', limit as int);
        } else {
            assert(!exists|m: int| is_first_of(v, ',', m));
            assert(first =~= v);
        }
        assert(first_element(v) == first);
    }
    let mut start: usize = 0;
    while start < limit && chars[start] != ';'
        invariant
            chars@ == v,
            limit <= len,
            len == v.len(),
            start <= limit,
            forall|j: int| 0 <= j < start ==> #[trigger] v[j] != ';',
        decreases limit - start,
    {
        start = start + 1;
    }
    if start == limit {
        proof {
            assert forall|s: int, e: int| !first_branch_parameter(first, s, e) by {
                if is_parameter(first, s, e) {
                    assert(first[s] == v[s]);
                }
            }
        }
        return Err(EngineError::InvalidBranch);
    }
    let mut found: (usize, usize) = (0, 0);
    loop
        invariant
            header_text(headers@, "Via"@) == Some(v),
            first_element(v) == first,
            chars@ == v,
            len == v.len(),
            limit <= len,
            first == v.take(limit as int),
            start < limit,
            first[start as int] == ';',
            forall|s: int, e: int|
                s < start && is_parameter(first, s, e) ==> #[trigger] branch_value(
                    first.subrange(s + 1, e),
                ) is None,
        ensures
            header_text(headers@, "Via"@) == Some(v),
            first_element(v) == first,
            chars@ == v,
            found.0 <= found.1 <= len,
            via_branch(first) == Some(chars@.subrange(found.0 as int, found.1 as int)),
        decreases limit - start,
    {
        let mut end = start + 1;
        while end < limit && chars[end] != ';'
            invariant
                chars@ == v,
                first == v.take(limit as int),
                limit <= len,
                len == v.len(),
                start < end <= limit,
                forall|j: int| start < j < end ==> #[trigger] first[j] != ';',
            decreases limit - end,
        {
            end = end + 1;
        }
        proof {
            assert(is_parameter(first, start as int, end as int));
            assert(first.subrange(start + 1, end as int) =~= chars@.subrange(
                (start + 1) as int,
                end as int,
            ));
            assert forall|s: int, e: int|
                start <= s < end && is_parameter(first, s, e) implies s == start && e == end by {
                if s > start {
                    assert(first[s] != ';');
                }
                if e < end {
                    assert(first[e] != ';');
                } else if e > end {
                    assert(first[end as int] == ';');
                }
            }
        }
        match parameter_branch(&chars, start + 1, end) {
            Some(bounds) => {
                proof {
                    assert(first_branch_parameter(first, start as int, end as int));
                    lemma_first_branch_unique(first, start as int, end as int);
                }
                found = bounds;
                break;
            },
            None => {},
        }
        if end == limit {
            proof {
                assert forall|s: int, e: int| !first_branch_parameter(first, s, e) by {
                    if first_branch_parameter(first, s, e) {
                        if s > start {
                            assert(first[s] != ';');
                        }
                    }
                }
            }
            return Err(EngineError::InvalidBranch);
        }
        start = end;
    }
    let (x, y) = found;
    proof {
        assert(header_text(headers@, "Via"@) == Some(v));
    }
    if x == y || y - x > DEFAULT_MAX_BRANCH_BYTES || !is_graphic_range(&chars, x, y) {
        return Err(EngineError::InvalidBranch);
    }
    Ok(text_of(&chars, x, y))
}

/// A SIP response as the engine builds it.
pub struct SipResponse {
    pub version: String,
    pub status_code: u16,
    pub reason: String,
    pub headers: Vec<SipHeader>,
    pub body: Vec<u8>,
}

/// Whether a header is a `Via` header, under its full or compact name.
pub open spec fn is_via_header(header: SipHeader) -> bool {
    same_ignoring_ascii_case(header.name@, "Via"@) || same_ignoring_ascii_case(header.name@, "v"@)
}

/// The values of the `Via` headers of a message, in order.
pub open spec fn via_values(headers: Seq<SipHeader>) -> Seq<Seq<char>>
    decreases headers.len(),
{
    if headers.len() == 0 {
        Seq::empty()
    } else {
        let rest = via_values(headers.drop_last());
        if is_via_header(headers.last()) {
            rest.push(headers.last().value@)
        } else {
            rest
        }
    }
}

/// The `Via` fields a response echoes: one per request `Via`, in order.
pub open spec fn via_fields(headers: Seq<SipHeader>) -> Seq<(Seq<char>, Seq<char>)> {
    via_values(headers).map_values(|value: Seq<char>| ("Via"@, value))
}

/// Header fields by value: name and value of each header, in order.
pub open spec fn header_fields(headers: Seq<SipHeader>) -> Seq<(Seq<char>, Seq<char>)> {
    headers.map_values(|header: SipHeader| (header.name@, header.value@))
}

/// A `To` value carrying the local tag: unchanged when it already has a tag
/// or no tag is given, else followed by `;tag=` and the tag.
pub open spec fn with_local_tag(to: Seq<char>, local_tag: Option<Seq<char>>) -> Seq<char> {
    match local_tag {
        Some(tag) => if has_tag(to) {
            to
        } else {
            to + ";tag="@ + tag
        },
        None => to,
    }
}

/// The header fields of a response to a request with `request` headers: every
/// `Via` in order, then `From`, `To` (with the local tag), `Call-ID` and
/// `CSeq`; or the first of those four the request lacks.
pub open spec fn response_fields(request: Seq<SipHeader>, local_tag: Option<Seq<char>>) -> Result<
    Seq<(Seq<char>, Seq<char>)>,
    Seq<char>,
> {
    let vias = via_fields(request);
    match header_text(request, "From"@) {
        None => Err("From"@),
        Some(from) => match header_text(request, "To"@) {
            None => Err("To"@),
            Some(to) => match header_text(request, "Call-ID"@) {
                None => Err("Call-ID"@),
                Some(call_id) => match header_text(request, "CSeq"@) {
                    None => Err("CSeq"@),
                    Some(cseq) => Ok(
                        vias + seq![
                            ("From"@, from),
                            ("To"@, with_local_tag(to, local_tag)),
                            ("Call-ID"@, call_id),
                            ("CSeq"@, cseq),
                        ],
                    ),
                },
            },
        },
    }
}

pub open spec fn tag_text(local_tag: Option<&str>) -> Option<Seq<char>> {
    match local_tag {
        Some(tag) => Some(tag@),
        None => None,
    }
}

fn header(name: &str, value: &str) -> (field: SipHeader)
    ensures
        field.name@ == name@,
        field.value@ == value@,
{
    SipHeader { name: name.to_owned(), value: value.to_owned() }
}

proof fn lemma_fields_pushed(headers: Seq<SipHeader>, field: SipHeader)
    ensures
        header_fields(headers.push(field)) == header_fields(headers).push((field.name@, field.value@)),
{
    assert(header_fields(headers.push(field)) =~= header_fields(headers).push(
        (field.name@, field.value@),
    ));
}

/// Builds a response to a request: its `Via` headers in order, its `From`,
/// its `To` with the local tag added when given and not already tagged, its
/// `Call-ID` and `CSeq`; fails on the first of those four that is missing.
pub fn response_for_request(
    request: &[SipHeader],
    status_code: u16,
    reason: &str,
    local_tag: Option<&str>,
    body: Vec<u8>,
) -> (result: Result<SipResponse, EngineError>)
    ensures
        match result {
            Ok(response) => {
                &&& response_fields(request@, tag_text(local_tag)) == Ok::<
                    Seq<(Seq<char>, Seq<char>)>,
                    Seq<char>,
                >(header_fields(response.headers@))
                &&& response.version@ == "SIP/2.0"@
                &&& response.status_code == status_code
                &&& response.reason@ == reason@
                &&& response.body@ == body@
            },
            Err(error) => response_fields(request@, tag_text(local_tag)) matches Err(name)
                && error matches EngineError::MissingHeader(missing) && missing@ == name,
        },
{
    let mut headers: Vec<SipHeader> = Vec::new();
    let mut index: usize = 0;
    while index < request.len()
        invariant
            index <= request@.len(),
            header_fields(headers@) == via_fields(request@.take(index as int)),
        decreases request.len() - index,
    {
        let name = request[index].name.as_str();
        let is_via = eq_ignore_ascii_case(name, "Via") || eq_ignore_ascii_case(name, "v");
        proof {
            let next = request@.take(index + 1);
            assert(next.drop_last() =~= request@.take(index as int));
            assert(next.last() == request@[index as int]);
            assert(is_via == is_via_header(next.last()));
            assert(via_values(next) == if is_via {
                via_values(request@.take(index as int)).push(next.last().value@)
            } else {
                via_values(request@.take(index as int))
            });
        }
        if is_via {
            let field = header("Via", request[index].value.as_str());
            proof {
                lemma_fields_pushed(headers@, field);
                let before = via_values(request@.take(index as int));
                assert(before.push(field.value@).map_values(|value: Seq<char>| ("Via"@, value))
                    =~= before.map_values(|value: Seq<char>| ("Via"@, value)).push(
                    ("Via"@, field.value@),
                ));
            }
            headers.push(field);
        }
        index = index + 1;
    }
    proof {
        assert(request@.take(request@.len() as int) =~= request@);
    }
    let from = match required_header(request, "From") {
        Ok(from) => from,
        Err(error) => return Err(error),
    };
    let to_value = match required_header(request, "To") {
        Ok(to) => to,
        Err(error) => return Err(error),
    };
    let call_id = match required_header(request, "Call-ID") {
        Ok(call_id) => call_id,
        Err(error) => return Err(error),
    };
    let cseq = match required_header(request, "CSeq") {
        Ok(cseq) => cseq,
        Err(error) => return Err(error),
    };
    let mut to = to_value.to_owned();
    match local_tag {
        Some(tag) => {
            if !value_has_tag(to_value) {
                push_text(&mut to, ";tag=");
                push_text(&mut to, tag);
            }
        },
        None => {},
    }
    let ghost vias = header_fields(headers@);
    let from_field = header("From", from);
    let to_field = header("To", to.as_str());
    let call_id_field = header("Call-ID", call_id);
    let cseq_field = header("CSeq", cseq);
    proof {
        lemma_fields_pushed(headers@, from_field);
        lemma_fields_pushed(headers@.push(from_field), to_field);
        lemma_fields_pushed(headers@.push(from_field).push(to_field), call_id_field);
        lemma_fields_pushed(
            headers@.push(from_field).push(to_field).push(call_id_field),
            cseq_field,
        );
    }
    headers.push(from_field);
    headers.push(to_field);
    headers.push(call_id_field);
    headers.push(cseq_field);
    proof {
        assert(header_fields(headers@) =~= vias + seq![
            ("From"@, from@),
            ("To"@, to@),
            ("Call-ID"@, call_id@),
            ("CSeq"@, cseq@),
        ]);
    }
    Ok(
        SipResponse {
            version: "SIP/2.0".to_owned(),
            status_code,
            reason: reason.to_owned(),
            headers,
            body,
        },
    )
}

/// Whether a request's `To` header already carries a tag, as in-dialog
/// requests do.
pub fn request_has_to_tag(request: &[SipHeader]) -> (tagged: bool)
    ensures
        tagged == (header_text(request@, "To"@) matches Some(to) && has_tag(to)),
{
    match header_value(request, "To") {
        Some(to) => value_has_tag(to),
        None => false,
    }
}

/// What an ACK needs of an established dialog: its remote target and route set.
pub struct DialogRoute {
    pub remote_target: String,
    pub route_set: Vec<String>,
}

/// An ACK request: its request URI and header fields. Its method is `ACK`,
/// its version `SIP/2.0` and its body empty.
pub struct AckRequest {
    pub request_uri: String,
    pub headers: Vec<SipHeader>,
}

/// `s[a..b]` is the first white-space-separated token of `s`.
pub open spec fn is_first_token(s: Seq<char>, a: int, b: int) -> bool {
    &&& 0 <= a < b <= s.len()
    &&& all_white_space(s.take(a))
    &&& forall|j: int| a <= j < b ==> !is_white_space(#[trigger] s[j])
    &&& (b == s.len() || is_white_space(s[b]))
}

/// The first white-space-separated token of a text, if it has one.
pub open spec fn first_token(s: Seq<char>) -> Option<Seq<char>> {
    if exists|a: int, b: int| is_first_token(s, a, b) {
        let (a, b) = choose|a: int, b: int| is_first_token(s, a, b);
        Some(s.subrange(a, b))
    } else {
        None
    }
}

proof fn lemma_first_token_unique(s: Seq<char>, a: int, b: int)
    requires
        is_first_token(s, a, b),
    ensures
        first_token(s) == Some(s.subrange(a, b)),
{
    let (a2, b2) = choose|a2: int, b2: int| is_first_token(s, a2, b2);
    assert(is_first_token(s, a2, b2));
    if a2 < a {
        assert(s.take(a)[a2] == s[a2]);
    } else if a < a2 {
        assert(s.take(a2)[a] == s[a]);
    }
    if a == a2 {
        if b2 < b {
            assert(!is_white_space(s[b2]));
        } else if b < b2 {
            assert(!is_white_space(s[b]));
        }
    }
}

/// The text before the first `;` of a `Via` element (all of it if none).
pub open spec fn before_parameters(via: Seq<char>) -> Seq<char> {
    if exists|m: int| is_first_of(via, ';', m) {
        via.take(choose|m: int| is_first_of(via, ';', m))
    } else {
        via
    }
}

/// The `Via` of an ACK: a fresh `z9hG4bKrust-` branch numbered `branch` on the
/// request's sent-by for a 2xx ACK, else the request's first `Via` element.
pub open spec fn ack_via(first_via: Seq<char>, successful: bool, branch: u64) -> Seq<char> {
    if successful {
        trimmed(before_parameters(first_via)) + ";branch=z9hG4bKrust-"@ + decimal_digits(
            branch as nat,
        )
    } else {
        first_via
    }
}

/// Why an ACK cannot be built.
pub enum AckFault {
    /// A header the ACK copies is missing (named).
    Missing(Seq<char>),
    /// The request's first `Via` element is empty.
    EmptyVia,
    /// The branch counter cannot advance.
    BranchExhausted,
}

/// The `Route` fields of an ACK: one `<route>` per dialog route, in order.
pub open spec fn route_fields(routes: Seq<Seq<char>>) -> Seq<(Seq<char>, Seq<char>)> {
    routes.map_values(|route: Seq<char>| ("Route"@, "<"@ + route + ">"@))
}

/// The header fields of the ACK for a request and its final response, or why
/// there is none, checked in the order the ACK is assembled.
pub open spec fn ack_fields(
    request: Seq<SipHeader>,
    response: Seq<SipHeader>,
    routes: Seq<Seq<char>>,
    successful: bool,
    branch: u64,
) -> Result<Seq<(Seq<char>, Seq<char>)>, AckFault> {
    let sequence = match header_text(request, "CSeq"@) {
        Some(cseq) => first_token(cseq),
        None => None,
    };
    match sequence {
        None => Err(AckFault::Missing("CSeq"@)),
        Some(sequence) => match header_text(request, "Via"@) {
            None => Err(AckFault::Missing("Via"@)),
            Some(via) => {
                let first_via = trimmed(first_element(via));
                if first_via.len() == 0 {
                    Err(AckFault::EmptyVia)
                } else {
                    match header_text(response, "To"@) {
                        None => Err(AckFault::Missing("To"@)),
                        Some(to) => match header_text(request, "From"@) {
                            None => Err(AckFault::Missing("From"@)),
                            Some(from) => match header_text(request, "Call-ID"@) {
                                None => Err(AckFault::Missing("Call-ID"@)),
                                Some(call_id) => if successful && branch == u64::MAX {
                                    Err(AckFault::BranchExhausted)
                                } else {
                                    Ok(
                                        seq![
                                            ("Via"@, ack_via(first_via, successful, branch)),
                                            ("Max-Forwards"@, "70"@),
                                            ("From"@, from),
                                            ("To"@, to),
                                            ("Call-ID"@, call_id),
                                            ("CSeq"@, sequence + " ACK"@),
                                        ] + route_fields(routes),
                                    )
                                },
                            },
                        },
                    }
                }
            },
        },
    }
}

pub open spec fn route_texts(routes: Seq<String>) -> Seq<Seq<char>> {
    routes.map_values(|route: String| route@)
}

/// The bounds of the first white-space-separated token of `chars`.
fn token_bounds(chars: &Vec<char>) -> (bounds: Option<(usize, usize)>)
    ensures
        match bounds {
            Some((a, b)) => a < b <= chars@.len() && first_token(chars@) == Some(
                chars@.subrange(a as int, b as int),
            ),
            None => first_token(chars@) is None,
        },
{
    let len = chars.len();
    let mut a: usize = 0;
    while a < len && is_white_space_char(chars[a])
        invariant
            len == chars@.len(),
            a <= len,
            forall|j: int| 0 <= j < a ==> is_white_space(#[trigger] chars@[j]),
        decreases len - a,
    {
        a = a + 1;
    }
    if a == len {
        proof {
            assert forall|x: int, y: int| !is_first_token(chars@, x, y) by {
                if 0 <= x < y <= chars@.len() {
                    assert(is_white_space(chars@[x]));
                }
            }
        }
        return None;
    }
    let mut b = a + 1;
    while b < len && !is_white_space_char(chars[b])
        invariant
            len == chars@.len(),
            a < b <= len,
            !is_white_space(chars@[a as int]),
            forall|j: int| a <= j < b ==> !is_white_space(#[trigger] chars@[j]),
        decreases len - b,
    {
        b = b + 1;
    }
    proof {
        assert forall|j: int| 0 <= j < chars@.take(a as int).len() implies is_white_space(
            #[trigger] chars@.take(a as int)[j],
        ) by {
            assert(chars@.take(a as int)[j] == chars@[j]);
        }
        assert(is_first_token(chars@, a as int, b as int));
        lemma_first_token_unique(chars@, a as int, b as int);
    }
    Some((a, b))
}

/// The first comma-separated element of `chars`, trimmed, by its bounds.
fn first_element_bounds(chars: &Vec<char>) -> (bounds: (usize, usize))
    ensures
        bounds.0 <= bounds.1 <= chars@.len(),
        trimmed(first_element(chars@)) == chars@.subrange(bounds.0 as int, bounds.1 as int),
{
    let len = chars.len();
    let mut limit: usize = 0;
    while limit < len && chars[limit] != ','
        invariant
            len == chars@.len(),
            limit <= len,
            forall|j: int| 0 <= j < limit ==> #[trigger] chars@[j] != ',',
        decreases len - limit,
    {
        limit = limit + 1;
    }
    proof {
        if limit < len {
            assert(is_first_of(chars@, ',', limit as int));
            lemma_first_of_unique(chars@, ',', limit as int);
        } else {
            assert(!exists|m: int| is_first_of(chars@, ',', m));
        }
        assert(first_element(chars@) =~= chars@.subrange(0, limit as int));
    }
    let (a, b) = trim_range(chars, 0, limit);
    proof {
        lemma_trim_unique(chars@.subrange(0, limit as int), a as int, b as int);
        assert(chars@.subrange(0, limit as int).subrange(a as int, b as int) =~= chars@.subrange(
            a as int,
            b as int,
        ));
    }
    (a, b)
}

/// The sent-by of a `Via` element `chars[from..to]`: the text before its
/// first `;`, trimmed, by its bounds.
fn sent_by_bounds(chars: &Vec<char>, from: usize, to: usize) -> (bounds: (usize, usize))
    requires
        from <= to <= chars@.len(),
    ensures
        from <= bounds.0 <= bounds.1 <= to,
        trimmed(before_parameters(chars@.subrange(from as int, to as int))) == chars@.subrange(
            bounds.0 as int,
            bounds.1 as int,
        ),
{
    let ghost v = chars@.subrange(from as int, to as int);
    let mut limit = from;
    while limit < to && chars[limit] != ';'
        invariant
            from <= limit <= to,
            to <= chars@.len(),
            forall|j: int| from <= j < limit ==> #[trigger] chars@[j] != ';',
        decreases to - limit,
    {
        limit = limit + 1;
    }
    proof {
        let m = limit - from;
        assert forall|j: int| 0 <= j < m implies #[trigger] v[j] != ';' by {
            assert(v[j] == chars@[from + j]);
        }
        if limit < to {
            assert(v[m] == chars@[limit as int]);
            assert(is_first_of(v, ';', m));
            lemma_first_of_unique(v, ';', m);
        } else {
            assert(!exists|k: int| is_first_of(v, ';', k));
        }
        assert(before_parameters(v) =~= chars@.subrange(from as int, limit as int));
    }
    let (a, b) = trim_range(chars, from, limit);
    proof {
        lemma_trim_unique(chars@.subrange(from as int, limit as int), a - from, b - from);
        assert(chars@.subrange(from as int, limit as int).subrange(a - from, b - from)
            =~= chars@.subrange(a as int, b as int));
    }
    (a, b)
}

/// Builds the ACK for a final response to an INVITE. A 2xx ACK is a new
/// transaction: it takes the next `z9hG4bKrust-` branch from `next_branch` and
/// goes to the dialog's remote target; a non-2xx ACK reuses the INVITE's
/// first `Via` element and request URI. Both copy `From`, `Call-ID` and the
/// CSeq number from the request, `To` from the response, and the dialog's
/// route set.
pub fn build_ack(
    next_branch: &mut u64,
    request_uri: &str,
    request: &[SipHeader],
    response: &[SipHeader],
    dialog: &DialogRoute,
    successful: bool,
) -> (result: Result<AckRequest, EngineError>)
    ensures
        match ack_fields(
            request@,
            response@,
            route_texts(dialog.route_set@),
            successful,
            *old(next_branch),
        ) {
            Ok(fields) => result matches Ok(ack) && header_fields(ack.headers@) == fields
                && ack.request_uri@ == (if successful {
                dialog.remote_target@
            } else {
                request_uri@
            }) && *final(next_branch) == (if successful {
                (*old(next_branch) + 1) as u64
            } else {
                *old(next_branch)
            }),
            Err(fault) => *final(next_branch) == *old(next_branch) && match fault {
                AckFault::Missing(name) => result matches Err(EngineError::MissingHeader(missing))
                    && missing@ == name,
                AckFault::EmptyVia => result == Err::<AckRequest, EngineError>(
                    EngineError::InvalidBranch,
                ),
                AckFault::BranchExhausted => result == Err::<AckRequest, EngineError>(
                    EngineError::InvalidConfig,
                ),
            },
        },
{
    let ghost start_branch = *next_branch;
    let sequence_bounds = match header_value(request, "CSeq") {
        Some(cseq) => {
            let cseq_chars = collect_chars(cseq);
            match token_bounds(&cseq_chars) {
                Some((a, b)) => Some(text_of(&cseq_chars, a, b)),
                None => None,
            }
        },
        None => None,
    };
    let sequence = match sequence_bounds {
        Some(sequence) => sequence,
        None => return Err(EngineError::MissingHeader("CSeq")),
    };
    let request_via = match required_header(request, "Via") {
        Ok(via) => via,
        Err(error) => return Err(error),
    };
    let via_chars = collect_chars(request_via);
    let (via_from, via_to) = first_element_bounds(&via_chars);
    if via_from == via_to {
        return Err(EngineError::InvalidBranch);
    }
    let response_to = match required_header(response, "To") {
        Ok(to) => to,
        Err(error) => return Err(error),
    };
    let from = match required_header(request, "From") {
        Ok(from) => from,
        Err(error) => return Err(error),
    };
    let call_id = match required_header(request, "Call-ID") {
        Ok(call_id) => call_id,
        Err(error) => return Err(error),
    };
    let ghost first_via = via_chars@.subrange(via_from as int, via_to as int);
    let via = if successful {
        let branch = *next_branch;
        match branch.checked_add(1) {
            Some(next) => {
                *next_branch = next;
            },
            None => return Err(EngineError::InvalidConfig),
        }
        let (a, b) = sent_by_bounds(&via_chars, via_from, via_to);
        let mut via = text_of(&via_chars, a, b);
        push_text(&mut via, ";branch=z9hG4bKrust-");
        push_decimal(&mut via, branch);
        via
    } else {
        text_of(&via_chars, via_from, via_to)
    };
    let mut cseq_text = sequence;
    push_text(&mut cseq_text, " ACK");
    let mut headers: Vec<SipHeader> = Vec::new();
    headers.push(header("Via", via.as_str()));
    headers.push(header("Max-Forwards", "70"));
    headers.push(header("From", from));
    headers.push(header("To", response_to));
    headers.push(header("Call-ID", call_id));
    headers.push(header("CSeq", cseq_text.as_str()));
    let ghost fixed = header_fields(headers@);
    proof {
        assert(fixed =~= seq![
            ("Via"@, ack_via(first_via, successful, start_branch)),
            ("Max-Forwards"@, "70"@),
            ("From"@, from@),
            ("To"@, response_to@),
            ("Call-ID"@, call_id@),
            ("CSeq"@, cseq_text@),
        ]);
    }
    let mut index: usize = 0;
    while index < dialog.route_set.len()
        invariant
            index <= dialog.route_set@.len(),
            header_fields(headers@) == fixed + route_fields(
                route_texts(dialog.route_set@).take(index as int),
            ),
        decreases dialog.route_set.len() - index,
    {
        let mut route = "<".to_owned();
        push_text(&mut route, dialog.route_set[index].as_str());
        push_text(&mut route, ">");
        let field = header("Route", route.as_str());
        proof {
            lemma_fields_pushed(headers@, field);
            assert(route_fields(route_texts(dialog.route_set@).take(index + 1)) =~= route_fields(
                route_texts(dialog.route_set@).take(index as int),
            ).push(("Route"@, route@)));
        }
        headers.push(field);
        index = index + 1;
    }
    proof {
        assert(route_texts(dialog.route_set@).take(dialog.route_set@.len() as int) =~= route_texts(
            dialog.route_set@,
        ));
    }
    let request_uri = if successful {
        dialog.remote_target.clone()
    } else {
        request_uri.to_owned()
    };
    Ok(AckRequest { request_uri, headers })
}

/// A response built with a local tag names the dialog: its `To` carries a tag,
/// either the one the request already had or the local one, whenever the
/// local tag is non-empty, has no `;` and is not all white space.
pub proof fn law_local_tag_marks_the_dialog(to: Seq<char>, tag: Seq<char>)
    requires
        !all_white_space(tag),
        forall|j: int| 0 <= j < tag.len() ==> #[trigger] tag[j] != ';',
    ensures
        has_tag(with_local_tag(to, Some(tag))),
{
    if !has_tag(to) {
        reveal_strlit(";tag=");
        let v = to + ";tag="@ + tag;
        let start = to.len() as int;
        let end = v.len() as int;
        let p = v.subrange(start + 1, end);
        assert(p =~= seq!['t', 'a', 'g', '='] + tag);
        assert(p.take(0) =~= Seq::<char>::empty());
        assert(p.subrange(0, 3) =~= seq!['t', 'a', 'g']);
        assert(p.skip(4) =~= tag);
        assert(is_tag_parameter(p));
        assert forall|j: int| start < j < end implies #[trigger] v[j] != ';' by {
            if j >= start + 5 {
                assert(v[j] == tag[j - start - 5]);
            }
        }
        assert(is_parameter(v, start, end));
    }
}

proof fn lemma_leading_bound(s: Seq<char>) -> (a: int)
    ensures
        0 <= a <= s.len(),
        all_white_space(s.take(a)),
        a < s.len() ==> !is_white_space(s[a]),
    decreases s.len(),
{
    if s.len() == 0 {
        assert(s.take(0) =~= Seq::<char>::empty());
        0
    } else if is_white_space(s[0]) {
        let r = lemma_leading_bound(s.drop_first());
        assert(s.take(r + 1) =~= seq![s[0]] + s.drop_first().take(r));
        assert forall|j: int| 0 <= j < s.take(r + 1).len() implies is_white_space(
            #[trigger] s.take(r + 1)[j],
        ) by {
            if j > 0 {
                assert(s.take(r + 1)[j] == s.drop_first().take(r)[j - 1]);
            }
        }
        if r + 1 < s.len() {
            assert(s[r + 1] == s.drop_first()[r]);
        }
        r + 1
    } else {
        assert(s.take(0) =~= Seq::<char>::empty());
        0
    }
}

proof fn lemma_trailing_bound(s: Seq<char>) -> (b: int)
    ensures
        0 <= b <= s.len(),
        all_white_space(s.skip(b)),
        b > 0 ==> !is_white_space(s[b - 1]),
    decreases s.len(),
{
    if s.len() == 0 {
        assert(s.skip(0) =~= Seq::<char>::empty());
        0
    } else if is_white_space(s.last()) {
        let r = lemma_trailing_bound(s.drop_last());
        assert(s.skip(r) =~= s.drop_last().skip(r).push(s.last()));
        assert forall|j: int| 0 <= j < s.skip(r).len() implies is_white_space(
            #[trigger] s.skip(r)[j],
        ) by {
            if j < s.skip(r).len() - 1 {
                assert(s.skip(r)[j] == s.drop_last().skip(r)[j]);
            }
        }
        if r > 0 {
            assert(s[r - 1] == s.drop_last()[r - 1]);
        }
        r
    } else {
        assert(s.skip(s.len() as int) =~= Seq::<char>::empty());
        s.len() as int
    }
}

/// Every text has trim bounds, so its trimmed text is a piece of it.
proof fn lemma_trimmed_piece(s: Seq<char>) -> (bounds: (int, int))
    ensures
        is_trim(s, bounds.0, bounds.1),
        trimmed(s) == s.subrange(bounds.0, bounds.1),
{
    let a = lemma_leading_bound(s);
    let b = lemma_trailing_bound(s);
    if a == s.len() {
        assert(s.skip(s.len() as int) =~= Seq::<char>::empty());
        assert(is_trim(s, a, a));
        lemma_trim_unique(s, a, a);
        (a, a)
    } else {
        if b <= a {
            assert(s.skip(b)[a - b] == s[a]);
        }
        assert(is_trim(s, a, b));
        lemma_trim_unique(s, a, b);
        (a, b)
    }
}

proof fn lemma_first_element_has_no_comma(via: Seq<char>)
    ensures
        forall|j: int| 0 <= j < first_element(via).len() ==> #[trigger] first_element(via)[j] != ',',
{
    if exists|m: int| is_first_of(via, ',', m) {
        let m = choose|m: int| is_first_of(via, ',', m);
        assert(is_first_of(via, ',', m));
        assert forall|j: int| 0 <= j < first_element(via).len() implies #[trigger] first_element(
            via,
        )[j] != ',' by {
            assert(first_element(via)[j] == via[j]);
        }
    } else {
        assert forall|j: int| 0 <= j < via.len() implies #[trigger] via[j] != ',' by {
            if via[j] == ',' {
                lemma_first_index_exists(via, ',', j);
            }
        }
    }
}

/// A text holding `c` has a first `c`.
proof fn lemma_first_index_exists(t: Seq<char>, c: char, j: int)
    requires
        0 <= j < t.len(),
        t[j] == c,
    ensures
        exists|m: int| is_first_of(t, c, m),
    decreases j,
{
    if exists|k: int| 0 <= k < j && t[k] == c {
        let k = choose|k: int| 0 <= k < j && t[k] == c;
        lemma_first_index_exists(t, c, k);
    } else {
        assert(is_first_of(t, c, j));
    }
}

proof fn lemma_before_parameters_has_no_semicolon(via: Seq<char>)
    ensures
        forall|j: int|
            0 <= j < before_parameters(via).len() ==> #[trigger] before_parameters(via)[j] != ';',
{
    if exists|m: int| is_first_of(via, ';', m) {
        let m = choose|m: int| is_first_of(via, ';', m);
        assert(is_first_of(via, ';', m));
        assert forall|j: int| 0 <= j < before_parameters(via).len() implies #[trigger] before_parameters(
            via,
        )[j] != ';' by {
            assert(before_parameters(via)[j] == via[j]);
        }
    } else {
        assert forall|j: int| 0 <= j < via.len() implies #[trigger] via[j] != ';' by {
            if via[j] == ';' {
                lemma_first_index_exists(via, ';', j);
            }
        }
    }
}

/// The sent-by of a first `Via` element holds neither commas nor semicolons.
proof fn lemma_sent_by_is_plain(via0: Seq<char>)
    ensures
        ({
            let sent = trimmed(before_parameters(trimmed(first_element(via0))));
            forall|j: int| 0 <= j < sent.len() ==> #[trigger] sent[j] != ',' && sent[j] != ';'
        }),
{
    let first_via = trimmed(first_element(via0));
    let (fa, fb) = lemma_trimmed_piece(first_element(via0));
    lemma_first_element_has_no_comma(via0);
    let before = before_parameters(first_via);
    lemma_before_parameters_has_no_semicolon(first_via);
    let (sa, sb) = lemma_trimmed_piece(before);
    let sent = trimmed(before);
    assert forall|j: int| 0 <= j < sent.len() implies #[trigger] sent[j] != ',' && sent[j] != ';' by {
        assert(sent[j] == before[sa + j]);
        if exists|m: int| is_first_of(first_via, ';', m) {
            let m = choose|m: int| is_first_of(first_via, ';', m);
            assert(before[sa + j] == first_via[sa + j]);
        } else {
            assert(before == first_via);
        }
        assert(first_via[sa + j] == first_element(via0)[fa + sa + j]);
    }
}

/// The parameter `branch=z9hG4bKrust-N` names the usable branch
/// `z9hG4bKrust-N`.
proof fn lemma_fresh_parameter(branch: u64)
    ensures
        ({
            let value = "z9hG4bKrust-"@ + decimal_digits(branch as nat);
            &&& branch_value(seq!['b', 'r', 'a', 'n', 'c', 'h', '='] + value) == Some(value)
            &&& valid_branch(value)
        }),
{
    reveal_strlit("z9hG4bKrust-");
    reveal_strlit("branch");
    let digits = decimal_digits(branch as nat);
    crate::text::lemma_u64_decimal_len(branch);
    assert(crate::text::pow10(20) == 100000000000000000000) by {
        reveal_with_fuel(crate::text::pow10, 21);
    }
    crate::text::lemma_decimal_digits_shape(branch as nat, 20);
    let value = "z9hG4bKrust-"@ + digits;
    let p = seq!['b', 'r', 'a', 'n', 'c', 'h', '='] + value;
    assert(p.take(0) =~= Seq::<char>::empty());
    assert(p.skip(p.len() as int) =~= Seq::<char>::empty());
    assert(p[p.len() - 1] == digits[digits.len() - 1]);
    assert(is_trim(p, 0, p.len() as int));
    lemma_trim_unique(p, 0, p.len() as int);
    assert(p.subrange(0, p.len() as int) =~= p);
    assert(is_first_of(p, '=', 6));
    lemma_first_of_unique(p, '=', 6);
    assert(p.take(6) =~= "branch"@);
    assert(p.skip(7) =~= value);
    assert(value.take(0) =~= Seq::<char>::empty());
    assert(value.skip(value.len() as int) =~= Seq::<char>::empty());
    assert(value[value.len() - 1] == digits[digits.len() - 1]);
    assert(is_trim(value, 0, value.len() as int));
    lemma_trim_unique(value, 0, value.len() as int);
    assert(value.subrange(0, value.len() as int) =~= value);
    assert forall|j: int| 0 <= j < value.len() implies crate::text::is_graphic_char(#[trigger] value[j]) by {
        if j >= 12 {
            assert(value[j] == digits[j - 12]);
        }
    }
}

/// A `Via` made of a plain sent-by and a fresh `z9hG4bKrust-` branch names
/// that branch, and it is a usable one.
proof fn lemma_fresh_via_branch(sent: Seq<char>, branch: u64)
    requires
        forall|j: int| 0 <= j < sent.len() ==> #[trigger] sent[j] != ',' && sent[j] != ';',
    ensures
        ({
            let via = sent + ";branch=z9hG4bKrust-"@ + decimal_digits(branch as nat);
            let value = "z9hG4bKrust-"@ + decimal_digits(branch as nat);
            &&& first_element(via) == via
            &&& via_branch(via) == Some(value)
            &&& valid_branch(value)
        }),
{
    reveal_strlit(";branch=z9hG4bKrust-");
    reveal_strlit("z9hG4bKrust-");
    let digits = decimal_digits(branch as nat);
    crate::text::lemma_u64_decimal_len(branch);
    assert(crate::text::pow10(20) == 100000000000000000000) by {
        reveal_with_fuel(crate::text::pow10, 21);
    }
    crate::text::lemma_decimal_digits_shape(branch as nat, 20);
    let lit = ";branch=z9hG4bKrust-"@;
    let via = sent + lit + digits;
    let start = sent.len() as int;
    let end = via.len() as int;
    assert forall|j: int| 0 <= j < via.len() implies #[trigger] via[j] != ',' && (j != start
        ==> via[j] != ';') by {
        if j < start {
            assert(via[j] == sent[j]);
        } else if j < start + 20 {
            assert(via[j] == lit[j - start]);
        } else {
            assert(via[j] == digits[j - start - 20]);
        }
    }
    assert(!exists|m: int| is_first_of(via, ',', m));
    assert(is_parameter(via, start, end));
    let value = "z9hG4bKrust-"@ + digits;
    assert(via.subrange(start + 1, end) =~= seq!['b', 'r', 'a', 'n', 'c', 'h', '='] + value);
    lemma_fresh_parameter(branch);
    assert forall|s2: int, e2: int| s2 < start && is_parameter(via, s2, e2) implies #[trigger] branch_value(
        via.subrange(s2 + 1, e2),
    ) is None by {
        assert(via[s2] != ';');
    }
    assert(first_branch_parameter(via, start, end));
    lemma_first_branch_unique(via, start, end);
}

/// The branch a 2xx ACK carries is the fresh one it was built with: reading
/// the transaction branch of the ACK's headers gives `z9hG4bKrust-` and the
/// branch number, so the ACK starts a transaction of its own.
pub proof fn law_success_ack_carries_fresh_branch(
    request: Seq<SipHeader>,
    response: Seq<SipHeader>,
    routes: Seq<Seq<char>>,
    branch: u64,
    ack: Seq<SipHeader>,
)
    requires
        ack_fields(request, response, routes, true, branch) == Ok::<
            Seq<(Seq<char>, Seq<char>)>,
            AckFault,
        >(header_fields(ack)),
    ensures
        branch_of(ack) == Ok::<Seq<char>, Option<Seq<char>>>(
            "z9hG4bKrust-"@ + decimal_digits(branch as nat),
        ),
{
    let via0 = header_text(request, "Via"@)->Some_0;
    let first_via = trimmed(first_element(via0));
    let via = ack_via(first_via, true, branch);
    let fields = ack_fields(request, response, routes, true, branch)->Ok_0;
    assert(fields == header_fields(ack));
    assert(header_text(request, "Via"@) is Some);
    assert(fields[0] == ("Via"@, via));
    assert(ack.len() == fields.len());
    assert(header_fields(ack)[0] == (ack[0].name@, ack[0].value@));
    assert(header_aliases("Via"@)[0] == "Via"@);
    assert(same_ignoring_ascii_case(ack[0].name@, header_aliases("Via"@)[0]));
    assert(first_named(ack, "Via"@, 0));
    lemma_first_named_unique(ack, "Via"@, 0);
    lemma_sent_by_is_plain(via0);
    lemma_fresh_via_branch(trimmed(before_parameters(first_via)), branch);
}

/// A success response answers exactly the calls the lifecycle lets answer:
/// for every 2xx status the command is `Answer` when the call may move to
/// `Answered`, and nothing otherwise.
pub proof fn law_success_answers_answerable_calls(state: CallState, status_code: u16)
    requires
        200 <= status_code <= 299,
    ensures
        valid_transition(state, CallState::Answered) ==> response_command(state, status_code) == Some(
            CallCommand::Answer,
        ),
        !valid_transition(state, CallState::Answered) ==> response_command(state, status_code)
            is None,
{
}

/// What each response class does to a call: `183` starts early media and
/// `180` rings exactly where the lifecycle allows moving to `Early` or
/// `Ringing`; a `3xx`-`6xx` failure fails every call not already ending,
/// ended or failed; any other status implies no command.
pub proof fn law_response_classes(state: CallState, status_code: u16)
    ensures
        status_code == 183 ==> response_command(state, status_code) == (if valid_transition(
            state,
            CallState::Early,
        ) {
            Some(CallCommand::EarlyMedia)
        } else {
            None
        }),
        status_code == 180 ==> response_command(state, status_code) == (if valid_transition(
            state,
            CallState::Ringing,
        ) {
            Some(CallCommand::Ringing)
        } else {
            None
        }),
        300 <= status_code <= 699 ==> response_command(state, status_code) == (if state
            == CallState::Ending || state == CallState::Ended || state == CallState::Failed {
            None
        } else {
            Some(CallCommand::Fail)
        }),
        status_code != 180 && status_code != 183 && !(200 <= status_code <= 699) ==> response_command(
            state,
            status_code,
        ) is None,
{
}

} // verus!
