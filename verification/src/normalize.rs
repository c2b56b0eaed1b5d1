//! Building the semantic facts of a replay: environment-owned identifiers
//! replaced by first-seen aliases, negotiated media spelled without
//! addresses, and the fact list held to its count and size bounds.

use vstd::prelude::*;
use vstd::string::*;

use crate::bridge::{BridgeEvent, BridgeSnapshot};
use crate::call_api::CallSnapshot;
use crate::call_core::LifecycleEvent;
use crate::differential::{
    bridge_event, bridge_event_text, bridge_state, bridge_state_text, call_event,
    call_event_text, call_state, call_state_text, queue_drops, utf8_len,
    DifferentialError, NormalizationConfig,
};
use crate::media::QueueStats;
use crate::negotiation::{Direction, NegotiatedAudio, SdpCodec};
use crate::text::{collect_chars, decimal_digits, push_char, push_decimal, push_text};

verus! {

broadcast use vstd::string::group_string_axioms;

/// `true` or `false`, as facts spell a flag.
pub open spec fn flag_text(value: bool) -> Seq<char> {
    if value {
        "true"@
    } else {
        "false"@
    }
}

/// A text with ASCII small letters raised to capitals.
pub open spec fn upper_ascii(text: Seq<char>) -> Seq<char> {
    text.map_values(|c: char| if 'a' <= c && c <= 'z' { ((c as u32) - 32) as char } else { c })
}

/// The fact spelling of a media direction.
pub open spec fn direction_text(value: Direction) -> Seq<char> {
    match value {
        Direction::SendRecv => "sendrecv"@,
        Direction::SendOnly => "sendonly"@,
        Direction::RecvOnly => "recvonly"@,
        Direction::Inactive => "inactive"@,
    }
}

/// A codec as facts spell it: capitalised name, clock rate, channels and
/// whether format parameters were given.
pub open spec fn codec_text(codec: SdpCodec) -> Seq<char> {
    upper_ascii(codec.name@) + "/"@ + decimal_digits(codec.clock_rate as nat) + "/"@
        + decimal_digits(codec.channels as nat) + ":fmtp="@ + flag_text(codec.fmtp is Some)
}

/// A negotiation as facts spell it, without its addresses or port number.
pub open spec fn negotiated_text(media: Option<NegotiatedAudio>) -> Seq<char> {
    match media {
        None => "codec=none"@,
        Some(audio) => "codec="@ + codec_text(audio.local_codec) + "->"@ + codec_text(
            audio.remote_codec,
        ) + " direction="@ + direction_text(audio.direction) + " remote-address="@ + flag_text(
            audio.remote_connection is Some,
        ) + " remote-port="@ + flag_text(audio.remote_port != 0),
    }
}

/// The fact recorded for a call under its alias.
pub open spec fn call_fact(alias: nat, retention: Seq<char>, snapshot: CallSnapshot) -> Seq<char> {
    "call call-"@ + decimal_digits(alias) + " "@ + retention + " "@ + call_state_text(
        snapshot.state,
    ) + " dialog="@ + flag_text(snapshot.dialog_id is Some) + " "@ + negotiated_text(snapshot.media)
}

/// The fact recorded for a bridge under its alias and its caller's alias.
pub open spec fn bridge_fact(
    alias: nat,
    retention: Seq<char>,
    caller: nat,
    snapshot: BridgeSnapshot,
) -> Seq<char> {
    "bridge bridge-"@ + decimal_digits(alias) + " "@ + retention + " "@ + bridge_state_text(
        snapshot.state,
    ) + " caller=call-"@ + decimal_digits(caller) + " pending-human="@ + flag_text(
        snapshot.pending_human is Some,
    ) + " active-human="@ + flag_text(snapshot.active_human is Some)
}

fn push_flag(s: &mut String, value: bool)
    ensures
        final(s)@ == old(s)@ + flag_text(value),
{
    if value {
        push_text(s, "true");
    } else {
        push_text(s, "false");
    }
}

fn push_upper_ascii(s: &mut String, text: &str)
    ensures
        final(s)@ == old(s)@ + upper_ascii(text@),
{
    let chars = collect_chars(text);
    let ghost start = s@;
    let mut index: usize = 0;
    while index < chars.len()
        invariant
            chars@ == text@,
            index <= chars@.len(),
            s@ == start + upper_ascii(chars@.take(index as int)),
        decreases chars.len() - index,
    {
        let c = chars[index];
        let upper = if 'a' <= c && c <= 'z' {
            let code: u32 = c as u32;
            let small: u8 = (code - 32) as u8;
            small as char
        } else {
            c
        };
        push_char(s, upper);
        proof {
            assert(upper_ascii(chars@.take(index + 1)) =~= upper_ascii(
                chars@.take(index as int),
            ).push(upper));
        }
        index = index + 1;
    }
    proof {
        assert(chars@.take(chars@.len() as int) =~= chars@);
    }
}

fn push_direction(s: &mut String, value: Direction)
    ensures
        final(s)@ == old(s)@ + direction_text(value),
{
    match value {
        Direction::SendRecv => push_text(s, "sendrecv"),
        Direction::SendOnly => push_text(s, "sendonly"),
        Direction::RecvOnly => push_text(s, "recvonly"),
        Direction::Inactive => push_text(s, "inactive"),
    }
}

fn push_codec(s: &mut String, codec: &SdpCodec)
    ensures
        final(s)@ == old(s)@ + codec_text(*codec),
{
    let ghost start = s@;
    push_upper_ascii(s, codec.name.as_str());
    push_text(s, "/");
    push_decimal(s, codec.clock_rate as u64);
    push_text(s, "/");
    push_decimal(s, codec.channels as u64);
    push_text(s, ":fmtp=");
    push_flag(s, codec.fmtp.is_some());
    proof {
        assert(s@ =~= start + codec_text(*codec));
    }
}

/// Spells a call's negotiated media as facts record it.
pub fn normalize_negotiated(media: &Option<NegotiatedAudio>) -> (text: String)
    ensures
        text@ == negotiated_text(*media),
{
    let mut text = String::new();
    match media {
        None => push_text(&mut text, "codec=none"),
        Some(audio) => {
            push_text(&mut text, "codec=");
            push_codec(&mut text, &audio.local_codec);
            push_text(&mut text, "->");
            push_codec(&mut text, &audio.remote_codec);
            push_text(&mut text, " direction=");
            push_direction(&mut text, audio.direction);
            push_text(&mut text, " remote-address=");
            push_flag(&mut text, audio.remote_connection.is_some());
            push_text(&mut text, " remote-port=");
            push_flag(&mut text, audio.remote_port != 0);
            proof {
                assert(text@ =~= negotiated_text(*media));
            }
        },
    }
    text
}

/// First-seen numbering of identifiers: the first distinct identifier is 1,
/// the next new one 2, and so on.
pub struct AliasMap {
    seen: Vec<String>,
}

impl View for AliasMap {
    type V = Seq<Seq<char>>;

    closed spec fn view(&self) -> Seq<Seq<char>> {
        self.seen@.map_values(|text: String| text@)
    }
}

/// `i` is where the identifier was first seen.
pub open spec fn is_first_seen(seen: Seq<Seq<char>>, value: Seq<char>, i: int) -> bool {
    &&& 0 <= i < seen.len()
    &&& seen[i] == value
    &&& forall|j: int| 0 <= j < i ==> #[trigger] seen[j] != value
}

/// The alias an identifier gets: its first-seen position plus one, or the
/// next number when it is new.
pub open spec fn alias_step(seen: Seq<Seq<char>>, value: Seq<char>) -> (Seq<Seq<char>>, nat) {
    if seen.contains(value) {
        (seen, (choose|i: int| is_first_seen(seen, value, i)) as nat + 1)
    } else {
        (seen.push(value), seen.len() + 1)
    }
}

proof fn lemma_first_seen_unique(seen: Seq<Seq<char>>, value: Seq<char>, i: int)
    requires
        is_first_seen(seen, value, i),
    ensures
        seen.contains(value),
        (choose|k: int| is_first_seen(seen, value, k)) == i,
{
    assert(seen[i] == value);
    let k = choose|k: int| is_first_seen(seen, value, k);
    assert(is_first_seen(seen, value, k));
    if k < i {
        assert(seen[k] != value);
    } else if i < k {
        assert(seen[i] != value);
    }
}

impl AliasMap {
    /// A map that has seen nothing.
    pub fn new() -> (map: Self)
        ensures
            map@ == Seq::<Seq<char>>::empty(),
    {
        let map = AliasMap { seen: Vec::new() };
        assert(map@ =~= Seq::<Seq<char>>::empty());
        map
    }

    /// The alias of an identifier, numbering it when it is new.
    pub fn alias(&mut self, value: &str) -> (alias: usize)
        requires
            old(self)@.len() < usize::MAX,
        ensures
            (final(self)@, alias as nat) == alias_step(old(self)@, value@),
    {
        let ghost before = self@;
        let mut index: usize = 0;
        while index < self.seen.len()
            invariant
                self@ == before,
                index <= self.seen@.len(),
                self.seen@.len() == before.len(),
                forall|j: int| 0 <= j < index ==> #[trigger] before[j] != value@,
            decreases self.seen.len() - index,
        {
            assert(before[index as int] == self.seen@[index as int]@);
            if string_equal(&self.seen[index], value) {
                proof {
                    lemma_first_seen_unique(before, value@, index as int);
                }
                return index + 1;
            }
            index += 1;
        }
        proof {
            assert(!before.contains(value@));
        }
        let alias = self.seen.len() + 1;
        self.seen.push(value.to_string());
        proof {
            assert(self@ =~= before.push(value@));
        }
        alias
    }
}

fn string_equal(a: &String, b: &str) -> (same: bool)
    ensures
        same == (a@ == b@),
{
    let left = collect_chars(a.as_str());
    let right = collect_chars(b);
    if left.len() != right.len() {
        return false;
    }
    let mut index: usize = 0;
    while index < left.len()
        invariant
            left@ == a@,
            right@ == b@,
            left.len() == right.len(),
            index <= left.len(),
            forall|i: int| 0 <= i < index ==> left@[i] == right@[i],
        decreases left.len() - index,
    {
        if left[index] != right[index] {
            return false;
        }
        index += 1;
    }
    assert(left@ =~= right@);
    true
}

/// The facts of one replay under construction, with the aliases of the calls
/// and bridges they name.
pub struct Normalizer {
    config: NormalizationConfig,
    facts: Vec<String>,
    calls: AliasMap,
    bridges: AliasMap,
}

pub struct NormalizerView {
    pub config: NormalizationConfig,
    pub facts: Seq<Seq<char>>,
    pub calls: Seq<Seq<char>>,
    pub bridges: Seq<Seq<char>>,
}

impl View for Normalizer {
    type V = NormalizerView;

    closed spec fn view(&self) -> NormalizerView {
        NormalizerView {
            config: self.config,
            facts: self.facts@.map_values(|fact: String| fact@),
            calls: self.calls@,
            bridges: self.bridges@,
        }
    }
}

/// The UTF-8 size of a text held in memory, as the `usize` it always fits in.
pub open spec fn byte_len(text: Seq<char>) -> usize {
    utf8_len(text) as usize
}

/// What recording one fact gives: `TooManyFacts` at the count bound,
/// `FactTooLong` past the byte bound, else the fact appended.
pub open spec fn push_step(state: NormalizerView, fact: Seq<char>) -> (
    NormalizerView,
    Result<(), DifferentialError>,
) {
    if state.facts.len() >= state.config.max_facts {
        (
            state,
            Err(
                DifferentialError::TooManyFacts {
                    actual: (state.facts.len() + 1) as usize,
                    maximum: state.config.max_facts,
                },
            ),
        )
    } else if byte_len(fact) > state.config.max_fact_bytes {
        (
            state,
            Err(
                DifferentialError::FactTooLong {
                    index: state.facts.len() as usize,
                    actual: byte_len(fact),
                    maximum: state.config.max_fact_bytes,
                },
            ),
        )
    } else {
        (NormalizerView { facts: state.facts.push(fact), ..state }, Ok(()))
    }
}

impl Normalizer {
    /// An empty fact list under the bounds.
    pub fn new(config: NormalizationConfig) -> (normalizer: Self)
        ensures
            normalizer@.config == config,
            normalizer@.facts == Seq::<Seq<char>>::empty(),
            normalizer@.calls == Seq::<Seq<char>>::empty(),
            normalizer@.bridges == Seq::<Seq<char>>::empty(),
    {
        let normalizer = Normalizer {
            config,
            facts: Vec::new(),
            calls: AliasMap::new(),
            bridges: AliasMap::new(),
        };
        assert(normalizer@.facts =~= Seq::<Seq<char>>::empty());
        normalizer
    }

    /// The facts recorded so far, in order.
    pub fn facts(&self) -> (facts: &[String])
        ensures
            facts@.map_values(|fact: String| fact@) == self@.facts,
    {
        self.facts.as_slice()
    }

    /// Records one fact within the count and byte bounds.
    pub fn push(&mut self, fact: String) -> (result: Result<(), DifferentialError>)
        requires
            old(self)@.facts.len() < usize::MAX,
        ensures
            (final(self)@, result) == push_step(old(self)@, fact@),
    {
        let ghost before = self@;
        if self.facts.len() >= self.config.max_facts {
            return Err(
                DifferentialError::TooManyFacts {
                    actual: self.facts.len() + 1,
                    maximum: self.config.max_facts,
                },
            );
        }
        let size = fact.as_str().len();
        if size > self.config.max_fact_bytes {
            return Err(
                DifferentialError::FactTooLong {
                    index: self.facts.len(),
                    actual: size,
                    maximum: self.config.max_fact_bytes,
                },
            );
        }
        self.facts.push(fact);
        proof {
            assert(self@.facts =~= before.facts.push(fact@));
        }
        Ok(())
    }

    /// Records a call under its alias, with its retention, state, whether a
    /// dialog is bound, and its negotiated media.
    pub fn add_call(&mut self, snapshot: &CallSnapshot, retention: &str) -> (result: Result<
        (),
        DifferentialError,
    >)
        requires
            old(self)@.calls.len() < usize::MAX,
            old(self)@.facts.len() < usize::MAX,
        ensures
            ({
                let (calls, alias) = alias_step(old(self)@.calls, snapshot.id@);
                let aliased = NormalizerView { calls, ..old(self)@ };
                (final(self)@, result) == push_step(
                    aliased,
                    call_fact(alias, retention@, *snapshot),
                )
            }),
    {
        let alias = self.calls.alias(snapshot.id.as_str());
        let mut fact = String::new();
        push_text(&mut fact, "call call-");
        push_decimal(&mut fact, alias as u64);
        push_text(&mut fact, " ");
        push_text(&mut fact, retention);
        push_text(&mut fact, " ");
        push_text(&mut fact, call_state(snapshot.state));
        push_text(&mut fact, " dialog=");
        push_flag(&mut fact, snapshot.dialog_id.is_some());
        push_text(&mut fact, " ");
        let media = normalize_negotiated(&snapshot.media);
        push_text(&mut fact, media.as_str());
        proof {
            assert(fact@ =~= call_fact(alias as nat, retention@, *snapshot));
        }
        self.push(fact)
    }

    /// Records a bridge under its alias, with its retention, state, its
    /// caller's call alias and whether human legs are pending or active.
    pub fn add_bridge(&mut self, snapshot: &BridgeSnapshot, retention: &str) -> (result: Result<
        (),
        DifferentialError,
    >)
        requires
            old(self)@.calls.len() < usize::MAX,
            old(self)@.bridges.len() < usize::MAX,
            old(self)@.facts.len() < usize::MAX,
        ensures
            ({
                let (bridges, alias) = alias_step(old(self)@.bridges, snapshot.id@);
                let (calls, caller) = alias_step(old(self)@.calls, snapshot.caller_call_id@);
                let aliased = NormalizerView { bridges, calls, ..old(self)@ };
                (final(self)@, result) == push_step(
                    aliased,
                    bridge_fact(alias, retention@, caller, *snapshot),
                )
            }),
    {
        let alias = self.bridges.alias(snapshot.id.as_str());
        let caller = self.calls.alias(snapshot.caller_call_id.as_str());
        let mut fact = String::new();
        push_text(&mut fact, "bridge bridge-");
        push_decimal(&mut fact, alias as u64);
        push_text(&mut fact, " ");
        push_text(&mut fact, retention);
        push_text(&mut fact, " ");
        push_text(&mut fact, bridge_state(snapshot.state));
        push_text(&mut fact, " caller=call-");
        push_decimal(&mut fact, caller as u64);
        push_text(&mut fact, " pending-human=");
        push_flag(&mut fact, snapshot.pending_human.is_some());
        push_text(&mut fact, " active-human=");
        push_flag(&mut fact, snapshot.active_human.is_some());
        proof {
            assert(fact@ =~= bridge_fact(alias as nat, retention@, caller as nat, *snapshot));
        }
        self.push(fact)
    }
}

/// An identifier keeps the alias it was first given: asking again changes
/// nothing and gives the same number, and distinct identifiers get distinct
/// numbers.
pub proof fn law_alias_is_stable(seen: Seq<Seq<char>>, value: Seq<char>, other: Seq<char>)
    requires
        value != other,
    ensures
        alias_step(alias_step(seen, value).0, value) == (
            alias_step(seen, value).0,
            alias_step(seen, value).1,
        ),
        alias_step(alias_step(seen, value).0, other).1 != alias_step(seen, value).1,
{
    let (after, alias) = alias_step(seen, value);
    if seen.contains(value) {
        let i = choose|i: int| 0 <= i < seen.len() && seen[i] == value;
        let first = choose|k: int| is_first_seen(seen, value, k);
        lemma_first_index_exists(seen, value, i);
        lemma_first_seen_unique(seen, value, first);
        if after.contains(other) {
            let o = choose|k: int| 0 <= k < after.len() && after[k] == other;
            lemma_first_index_exists(after, other, o);
            let f = choose|k: int| is_first_seen(after, other, k);
            lemma_first_seen_unique(after, other, f);
        }
    } else {
        assert(after[seen.len() as int] == value);
        lemma_first_seen_unique(after, value, seen.len() as int);
        assert(!after.contains(value) ==> false);
        if after.contains(other) {
            let o = choose|k: int| 0 <= k < after.len() && after[k] == other;
            lemma_first_index_exists(after, other, o);
            let f = choose|k: int| is_first_seen(after, other, k);
            lemma_first_seen_unique(after, other, f);
            assert(f < seen.len());
        }
    }
}

proof fn lemma_first_index_exists(seen: Seq<Seq<char>>, value: Seq<char>, i: int)
    requires
        0 <= i < seen.len(),
        seen[i] == value,
    ensures
        exists|k: int| is_first_seen(seen, value, k),
    decreases i,
{
    if exists|j: int| 0 <= j < i && seen[j] == value {
        let j = choose|j: int| 0 <= j < i && seen[j] == value;
        lemma_first_index_exists(seen, value, j);
    } else {
        assert(is_first_seen(seen, value, i));
    }
}

/// The counters of a session that a media fact records.
#[derive(Clone, Copy, Debug, PartialEq, Eq, Structural)]
pub struct MediaCounters {
    pub rtp_sent: u64,
    pub rtp_received: u64,
    pub rtp_lost: u64,
    pub rtp_invalid: u64,
    pub rtp_ssrc_changes: u64,
    pub rtcp_sent: u64,
    pub rtcp_received: u64,
    pub rtcp_lost: u64,
    pub rtcp_invalid: u64,
    pub rtcp_ssrc_changes: u64,
    pub audio_in: u64,
    pub audio_out: u64,
    pub dtmf_events: u64,
    pub dtmf_dropped: u64,
    pub pending_dtmf: usize,
    pub to_ai: QueueStats,
    pub from_ai: QueueStats,
}

/// Frames a queue lost at either end, saturating.
pub open spec fn drops_of(stats: QueueStats) -> nat {
    if stats.dropped_oldest + stats.dropped_newest > u64::MAX {
        u64::MAX as nat
    } else {
        (stats.dropped_oldest + stats.dropped_newest) as nat
    }
}

/// ` label=value`, as facts list a counter.
pub open spec fn field(label: Seq<char>, value: nat) -> Seq<char> {
    " "@ + label + "="@ + decimal_digits(value)
}

/// The fact recorded for a session's counters.
pub open spec fn media_fact(m: MediaCounters) -> Seq<char> {
    "media"@ + field("rtp-sent"@, m.rtp_sent as nat) + field("rtp-received"@, m.rtp_received as nat)
        + field("rtp-lost"@, m.rtp_lost as nat) + field("rtp-invalid"@, m.rtp_invalid as nat)
        + field("rtp-ssrc-changes"@, m.rtp_ssrc_changes as nat) + field(
        "rtcp-sent"@,
        m.rtcp_sent as nat,
    ) + field("rtcp-received"@, m.rtcp_received as nat) + field("rtcp-lost"@, m.rtcp_lost as nat)
        + field("rtcp-invalid"@, m.rtcp_invalid as nat) + field(
        "rtcp-ssrc-changes"@,
        m.rtcp_ssrc_changes as nat,
    ) + field("audio-in"@, m.audio_in as nat) + field("audio-out"@, m.audio_out as nat) + field(
        "dtmf-events"@,
        m.dtmf_events as nat,
    ) + field("dtmf-dropped"@, m.dtmf_dropped as nat) + field(
        "to-ai-pushed"@,
        m.to_ai.pushed as nat,
    ) + field("to-ai-dropped"@, drops_of(m.to_ai)) + field(
        "from-ai-pushed"@,
        m.from_ai.pushed as nat,
    ) + field("from-ai-dropped"@, drops_of(m.from_ai))
}

/// The fact recorded when the replay ends: what stayed retained, and the
/// queue depths of the session when there was one.
pub open spec fn cleanup_fact(
    calls: nat,
    bridges: nat,
    transactions: nat,
    media: Option<MediaCounters>,
) -> Seq<char> {
    "cleanup"@ + field("calls"@, calls) + field("bridges"@, bridges) + field(
        "transactions"@,
        transactions,
    ) + match media {
        None => " to-ai=na from-ai=na dtmf=na"@,
        Some(m) => field("to-ai"@, m.to_ai.depth as nat) + field("from-ai"@, m.from_ai.depth as nat)
            + field("dtmf"@, m.pending_dtmf as nat),
    }
}

fn push_field(s: &mut String, label: &str, value: u64)
    ensures
        final(s)@ == old(s)@ + field(label@, value as nat),
{
    let ghost start = s@;
    push_text(s, " ");
    push_text(s, label);
    push_text(s, "=");
    push_decimal(s, value);
    proof {
        assert(s@ =~= start + field(label@, value as nat));
    }
}

/// Spells a session's counters as a media fact.
pub fn media_text(m: &MediaCounters) -> (text: String)
    ensures
        text@ == media_fact(*m),
{
    let mut text = String::new();
    push_text(&mut text, "media");
    push_field(&mut text, "rtp-sent", m.rtp_sent);
    push_field(&mut text, "rtp-received", m.rtp_received);
    push_field(&mut text, "rtp-lost", m.rtp_lost);
    push_field(&mut text, "rtp-invalid", m.rtp_invalid);
    push_field(&mut text, "rtp-ssrc-changes", m.rtp_ssrc_changes);
    push_field(&mut text, "rtcp-sent", m.rtcp_sent);
    push_field(&mut text, "rtcp-received", m.rtcp_received);
    push_field(&mut text, "rtcp-lost", m.rtcp_lost);
    push_field(&mut text, "rtcp-invalid", m.rtcp_invalid);
    push_field(&mut text, "rtcp-ssrc-changes", m.rtcp_ssrc_changes);
    push_field(&mut text, "audio-in", m.audio_in);
    push_field(&mut text, "audio-out", m.audio_out);
    push_field(&mut text, "dtmf-events", m.dtmf_events);
    push_field(&mut text, "dtmf-dropped", m.dtmf_dropped);
    push_field(&mut text, "to-ai-pushed", m.to_ai.pushed);
    push_field(&mut text, "to-ai-dropped", queue_drops(&m.to_ai));
    push_field(&mut text, "from-ai-pushed", m.from_ai.pushed);
    push_field(&mut text, "from-ai-dropped", queue_drops(&m.from_ai));
    proof {
        assert(text@ =~= media_fact(*m));
    }
    text
}

/// Spells the end-of-replay cleanup fact.
pub fn cleanup_text(calls: usize, bridges: usize, transactions: usize, media: &Option<MediaCounters>) -> (text:
    String)
    ensures
        text@ == cleanup_fact(calls as nat, bridges as nat, transactions as nat, *media),
{
    let mut text = String::new();
    push_text(&mut text, "cleanup");
    push_field(&mut text, "calls", calls as u64);
    push_field(&mut text, "bridges", bridges as u64);
    push_field(&mut text, "transactions", transactions as u64);
    match media {
        None => push_text(&mut text, " to-ai=na from-ai=na dtmf=na"),
        Some(m) => {
            push_field(&mut text, "to-ai", m.to_ai.depth as u64);
            push_field(&mut text, "from-ai", m.from_ai.depth as u64);
            push_field(&mut text, "dtmf", m.pending_dtmf as u64);
        },
    }
    proof {
        assert(text@ =~= cleanup_fact(calls as nat, bridges as nat, transactions as nat, *media));
    }
    text
}

impl Normalizer {
    /// Records the session's counters, or that there was no session.
    pub fn add_media(&mut self, media: &Option<MediaCounters>) -> (result: Result<
        (),
        DifferentialError,
    >)
        requires
            old(self)@.facts.len() < usize::MAX,
        ensures
            (final(self)@, result) == push_step(
                old(self)@,
                match *media {
                    None => "media none"@,
                    Some(m) => media_fact(m),
                },
            ),
    {
        match media {
            None => self.push("media none".to_string()),
            Some(m) => self.push(media_text(m)),
        }
    }

    /// Records what stayed retained when the replay ended.
    pub fn add_cleanup(
        &mut self,
        calls: usize,
        bridges: usize,
        transactions: usize,
        media: &Option<MediaCounters>,
    ) -> (result: Result<(), DifferentialError>)
        requires
            old(self)@.facts.len() < usize::MAX,
        ensures
            (final(self)@, result) == push_step(
                old(self)@,
                cleanup_fact(calls as nat, bridges as nat, transactions as nat, *media),
            ),
    {
        self.push(cleanup_text(calls, bridges, transactions, media))
    }
}

/// The fact recorded for the `number`th lifecycle event, under its call's
/// alias.
pub open spec fn event_fact(number: nat, alias: nat, event: LifecycleEvent) -> Seq<char> {
    "event "@ + decimal_digits(number) + " call-"@ + decimal_digits(alias) + " "@ + call_event_text(
        event.kind,
    )
}

/// The fact recorded for the `number`th bridge event, under its bridge's
/// alias.
pub open spec fn bridge_event_fact(number: nat, alias: nat, event: BridgeEvent) -> Seq<char> {
    "bridge-event "@ + decimal_digits(number) + " bridge-"@ + decimal_digits(alias) + " "@
        + bridge_event_text(event.kind)
}

/// Recording lifecycle events from position `from` on, in order, each
/// numbered from one, stopping at the first fact that does not fit.
pub open spec fn events_step(state: NormalizerView, events: Seq<LifecycleEvent>, from: nat) -> (
    NormalizerView,
    Result<(), DifferentialError>,
)
    decreases events.len() - from,
{
    if from >= events.len() {
        (state, Ok(()))
    } else {
        let (calls, alias) = alias_step(state.calls, events[from as int].call_id@);
        let (next, result) = push_step(
            NormalizerView { calls, ..state },
            event_fact(from + 1, alias, events[from as int]),
        );
        if result is Err {
            (next, result)
        } else {
            events_step(next, events, from + 1)
        }
    }
}

/// Recording bridge events from position `from` on, as `events_step` does.
pub open spec fn bridge_events_step(
    state: NormalizerView,
    events: Seq<BridgeEvent>,
    from: nat,
) -> (NormalizerView, Result<(), DifferentialError>)
    decreases events.len() - from,
{
    if from >= events.len() {
        (state, Ok(()))
    } else {
        let (bridges, alias) = alias_step(state.bridges, events[from as int].bridge_id@);
        let (next, result) = push_step(
            NormalizerView { bridges, ..state },
            bridge_event_fact(from + 1, alias, events[from as int]),
        );
        if result is Err {
            (next, result)
        } else {
            bridge_events_step(next, events, from + 1)
        }
    }
}

proof fn lemma_alias_growth(seen: Seq<Seq<char>>, value: Seq<char>)
    ensures
        alias_step(seen, value).0.len() <= seen.len() + 1,
{
}

impl Normalizer {
    /// Records lifecycle events in order under their calls' aliases.
    pub fn add_events(&mut self, events: &[LifecycleEvent]) -> (result: Result<(), DifferentialError>)
        requires
            old(self)@.calls.len() + events@.len() < usize::MAX,
            old(self)@.facts.len() + events@.len() < usize::MAX,
        ensures
            (final(self)@, result) == events_step(old(self)@, events@, 0),
    {
        let ghost start = self@;
        let mut index: usize = 0;
        while index < events.len()
            invariant
                start == old(self)@,
                index <= events@.len(),
                self@.calls.len() <= start.calls.len() + index,
                self@.facts.len() <= start.facts.len() + index,
                start.calls.len() + events@.len() < usize::MAX,
                start.facts.len() + events@.len() < usize::MAX,
                events_step(start, events@, 0) == events_step(self@, events@, index as nat),
            decreases events.len() - index,
        {
            let event = &events[index];
            let ghost before = self@;
            proof {
                lemma_alias_growth(before.calls, event.call_id@);
            }
            let alias = self.calls.alias(event.call_id.as_str());
            let mut fact = String::new();
            push_text(&mut fact, "event ");
            push_decimal(&mut fact, (index + 1) as u64);
            push_text(&mut fact, " call-");
            push_decimal(&mut fact, alias as u64);
            push_text(&mut fact, " ");
            push_text(&mut fact, call_event(event.kind));
            proof {
                assert(fact@ =~= event_fact((index + 1) as nat, alias as nat, events@[index as int]));
            }
            let ghost aliased = self@;
            let pushed = self.push(fact);
            if pushed.is_err() {
                proof {
                    assert(aliased == (NormalizerView {
                        calls: alias_step(before.calls, events@[index as int].call_id@).0,
                        ..before
                    }));
                    assert(events_step(before, events@, index as nat) == (self@, pushed));
                }
                return pushed;
            }
            index += 1;
        }
        Ok(())
    }

    /// Records bridge events in order under their bridges' aliases.
    pub fn add_bridge_events(&mut self, events: &[BridgeEvent]) -> (result: Result<
        (),
        DifferentialError,
    >)
        requires
            old(self)@.bridges.len() + events@.len() < usize::MAX,
            old(self)@.facts.len() + events@.len() < usize::MAX,
        ensures
            (final(self)@, result) == bridge_events_step(old(self)@, events@, 0),
    {
        let ghost start = self@;
        let mut index: usize = 0;
        while index < events.len()
            invariant
                start == old(self)@,
                index <= events@.len(),
                self@.bridges.len() <= start.bridges.len() + index,
                self@.facts.len() <= start.facts.len() + index,
                start.bridges.len() + events@.len() < usize::MAX,
                start.facts.len() + events@.len() < usize::MAX,
                bridge_events_step(start, events@, 0) == bridge_events_step(
                    self@,
                    events@,
                    index as nat,
                ),
            decreases events.len() - index,
        {
            let event = &events[index];
            let ghost before = self@;
            proof {
                lemma_alias_growth(before.bridges, event.bridge_id@);
            }
            let alias = self.bridges.alias(event.bridge_id.as_str());
            let mut fact = String::new();
            push_text(&mut fact, "bridge-event ");
            push_decimal(&mut fact, (index + 1) as u64);
            push_text(&mut fact, " bridge-");
            push_decimal(&mut fact, alias as u64);
            push_text(&mut fact, " ");
            push_text(&mut fact, bridge_event(event.kind));
            proof {
                assert(fact@ =~= bridge_event_fact(
                    (index + 1) as nat,
                    alias as nat,
                    events@[index as int],
                ));
            }
            let ghost aliased = self@;
            let pushed = self.push(fact);
            if pushed.is_err() {
                proof {
                    assert(aliased == (NormalizerView {
                        bridges: alias_step(before.bridges, events@[index as int].bridge_id@).0,
                        ..before
                    }));
                    assert(bridge_events_step(before, events@, index as nat) == (self@, pushed));
                }
                return pushed;
            }
            index += 1;
        }
        Ok(())
    }
}

} // verus!
