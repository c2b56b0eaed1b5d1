//! Bounded semantic comparison of normalized replay observations.
//!
//! An observation is a scenario slug and ordered facts. It travels in a
//! line-oriented fixture format (`version`, `scenario`, then one `fact` line
//! per fact), so observations produced by this crate and converted oracle
//! captures are compared through one path. Every parse and comparison is
//! bounded by its configuration.

use vstd::prelude::*;
use vstd::string::*;

use crate::bridge::{BridgeEventKind, BridgeState};
use crate::call_core::{CallEventKind, CallState};
use crate::media::QueueStats;
use crate::text::{collect_chars, push_char, text_of};

verus! {

broadcast use vstd::string::group_string_axioms;

pub const DEFAULT_MAX_FACTS: usize = 16384;

pub const DEFAULT_MAX_FACT_BYTES: usize = 4096;

pub const DEFAULT_MAX_FIXTURE_BYTES: usize = 4194304;

pub const DEFAULT_MAX_DIFFERENCES: usize = 64;

/// Bounds applied while converting one replay report into semantic facts.
#[derive(Clone, Copy, Debug, PartialEq, Eq, Structural)]
pub struct NormalizationConfig {
    /// Maximum facts retained for one scenario.
    pub max_facts: usize,
    /// Maximum UTF-8 bytes retained in one fact.
    pub max_fact_bytes: usize,
}

impl Default for NormalizationConfig {
    fn default() -> (config: Self)
        ensures
            config == (NormalizationConfig {
                max_facts: DEFAULT_MAX_FACTS,
                max_fact_bytes: DEFAULT_MAX_FACT_BYTES,
            }),
    {
        NormalizationConfig { max_facts: DEFAULT_MAX_FACTS, max_fact_bytes: DEFAULT_MAX_FACT_BYTES }
    }
}

/// Bounds applied while parsing one checked-in oracle fixture.
#[derive(Clone, Copy, Debug, PartialEq, Eq, Structural)]
pub struct FixtureConfig {
    /// Maximum complete fixture size.
    pub max_bytes: usize,
    /// Maximum semantic fact count.
    pub max_facts: usize,
    /// Maximum bytes in one fixture line.
    pub max_line_bytes: usize,
}

impl Default for FixtureConfig {
    fn default() -> (config: Self)
        ensures
            config == (FixtureConfig {
                max_bytes: DEFAULT_MAX_FIXTURE_BYTES,
                max_facts: DEFAULT_MAX_FACTS,
                max_line_bytes: (DEFAULT_MAX_FACT_BYTES + 5) as usize,
            }),
    {
        FixtureConfig {
            max_bytes: DEFAULT_MAX_FIXTURE_BYTES,
            max_facts: DEFAULT_MAX_FACTS,
            max_line_bytes: DEFAULT_MAX_FACT_BYTES + 5,
        }
    }
}

/// Bounds applied while reporting semantic differences.
#[derive(Clone, Copy, Debug, PartialEq, Eq, Structural)]
pub struct ComparisonConfig {
    /// Maximum mismatches returned to the caller.
    pub max_differences: usize,
}

impl Default for ComparisonConfig {
    fn default() -> (config: Self)
        ensures
            config.max_differences == DEFAULT_MAX_DIFFERENCES,
    {
        ComparisonConfig { max_differences: DEFAULT_MAX_DIFFERENCES }
    }
}

/// Failure to normalize, parse, or configure a differential comparison.
#[derive(Clone, Copy, Debug, PartialEq, Eq)]
pub enum DifferentialError {
    /// At least one configured bound was zero.
    InvalidConfig,
    /// Scenario identity was empty or not a safe fixture slug.
    InvalidScenario,
    /// The observation exceeded its fact-count bound.
    TooManyFacts {
        /// Observed fact count.
        actual: usize,
        /// Configured maximum.
        maximum: usize,
    },
    /// One normalized fact exceeded its byte bound.
    FactTooLong {
        /// Zero-based fact index.
        index: usize,
        /// Observed bytes.
        actual: usize,
        /// Configured maximum.
        maximum: usize,
    },
    /// Oracle fixture exceeded its complete byte bound.
    FixtureTooLarge {
        /// Observed bytes.
        actual: usize,
        /// Configured maximum.
        maximum: usize,
    },
    /// One oracle line exceeded its byte bound.
    FixtureLineTooLong {
        /// One-based line number.
        line: usize,
        /// Configured maximum.
        maximum: usize,
    },
    /// Oracle fixture syntax or semantic category was invalid.
    InvalidFixture {
        /// One-based line number.
        line: usize,
        /// Stable reason suitable for diagnostics.
        reason: &'static str,
    },
}

/// Stable normalized observation accepted from Rust or a converted oracle.
#[derive(Debug, PartialEq, Eq)]
pub struct NormalizedObservation {
    scenario: String,
    facts: Vec<String>,
}

/// An observation as text: its scenario slug and ordered facts.
pub struct ObservationView {
    pub scenario: Seq<char>,
    pub facts: Seq<Seq<char>>,
}

pub open spec fn texts(strings: Seq<String>) -> Seq<Seq<char>> {
    strings.map_values(|text: String| text@)
}

impl View for NormalizedObservation {
    type V = ObservationView;

    closed spec fn view(&self) -> ObservationView {
        ObservationView { scenario: self.scenario@, facts: texts(self.facts@) }
    }
}

impl Clone for NormalizedObservation {
    fn clone(&self) -> (copy: Self)
        ensures
            copy@ == self@,
    {
        let mut facts: Vec<String> = Vec::new();
        let mut index: usize = 0;
        while index < self.facts.len()
            invariant
                index <= self.facts@.len(),
                facts@ == self.facts@.take(index as int),
            decreases self.facts.len() - index,
        {
            facts.push(self.facts[index].clone());
            proof {
                assert(facts@ =~= self.facts@.take(index + 1));
            }
            index = index + 1;
        }
        proof {
            assert(self.facts@.take(self.facts@.len() as int) =~= self.facts@);
        }
        NormalizedObservation { scenario: self.scenario.clone(), facts }
    }
}

/// A scenario slug: non-empty ASCII letters, digits, `-`, `_` and `.`.
pub open spec fn is_slug_char(c: char) -> bool {
    ('a' <= c <= 'z') || ('A' <= c <= 'Z') || ('0' <= c <= '9') || c == '-' || c == '_' || c == '.'
}

pub open spec fn valid_scenario(scenario: Seq<char>) -> bool {
    scenario.len() > 0 && forall|i: int| 0 <= i < scenario.len() ==> is_slug_char(#[trigger] scenario[i])
}

/// The fact categories an observation may carry, each with its separating
/// space.
pub open spec fn valid_category(fact: Seq<char>) -> bool {
    ||| "timing "@.is_prefix_of(fact)
    ||| "sip "@.is_prefix_of(fact)
    ||| "event "@.is_prefix_of(fact)
    ||| "bridge-event "@.is_prefix_of(fact)
    ||| "call "@.is_prefix_of(fact)
    ||| "bridge "@.is_prefix_of(fact)
    ||| "media "@.is_prefix_of(fact)
    ||| "cleanup "@.is_prefix_of(fact)
}

/// The `fact` lines of a fixture, one per fact.
pub open spec fn fact_lines(facts: Seq<Seq<char>>) -> Seq<char>
    decreases facts.len(),
{
    if facts.len() == 0 {
        Seq::empty()
    } else {
        fact_lines(facts.drop_last()) + "fact\t"@ + facts.last() + seq!['\n']
    }
}

/// The fixture text of an observation.
pub open spec fn fixture_text(scenario: Seq<char>, facts: Seq<Seq<char>>) -> Seq<char> {
    "version\t1\nscenario\t"@ + scenario + seq!['\n'] + fact_lines(facts)
}

fn is_slug_character(c: char) -> (slug: bool)
    ensures
        slug == is_slug_char(c),
{
    ('a' <= c && c <= 'z') || ('A' <= c && c <= 'Z') || ('0' <= c && c <= '9') || c == '-' || c
        == '_' || c == '.'
}

/// Accepts a scenario slug: non-empty ASCII letters, digits, `-`, `_`, `.`.
pub fn validate_scenario(scenario: &str) -> (result: Result<(), DifferentialError>)
    ensures
        result == (if valid_scenario(scenario@) {
            Ok::<(), DifferentialError>(())
        } else {
            Err(DifferentialError::InvalidScenario)
        }),
{
    let len = scenario.unicode_len();
    if len == 0 {
        return Err(DifferentialError::InvalidScenario);
    }
    let mut index: usize = 0;
    while index < len
        invariant
            len == scenario@.len(),
            index <= len,
            forall|i: int| 0 <= i < index ==> is_slug_char(#[trigger] scenario@[i]),
        decreases len - index,
    {
        if !is_slug_character(scenario.get_char(index)) {
            return Err(DifferentialError::InvalidScenario);
        }
        index = index + 1;
    }
    Ok(())
}

/// Whether `text` begins with `prefix`.
fn starts_with(text: &str, prefix: &str) -> (starts: bool)
    ensures
        starts == prefix@.is_prefix_of(text@),
{
    let text_len = text.unicode_len();
    let prefix_len = prefix.unicode_len();
    if prefix_len > text_len {
        return false;
    }
    let mut index: usize = 0;
    while index < prefix_len
        invariant
            text_len == text@.len(),
            prefix_len == prefix@.len(),
            prefix_len <= text_len,
            index <= prefix_len,
            forall|i: int| 0 <= i < index ==> #[trigger] prefix@[i] == text@[i],
        decreases prefix_len - index,
    {
        if prefix.get_char(index) != text.get_char(index) {
            return false;
        }
        index = index + 1;
    }
    assert(text@.subrange(0, prefix@.len() as int) =~= prefix@);
    true
}

/// Whether a fact names one of the known categories.
pub fn valid_fact_category(fact: &str) -> (valid: bool)
    ensures
        valid == valid_category(fact@),
{
    starts_with(fact, "timing ") || starts_with(fact, "sip ") || starts_with(fact, "event ")
        || starts_with(fact, "bridge-event ") || starts_with(fact, "call ") || starts_with(
        fact,
        "bridge ",
    ) || starts_with(fact, "media ") || starts_with(fact, "cleanup ")
}

/// The normalization bounds check: both bounds must be non-zero.
pub fn validate_normalization(config: NormalizationConfig) -> (result: Result<(), DifferentialError>)
    ensures
        result == (if config.max_facts == 0 || config.max_fact_bytes == 0 {
            Err::<(), DifferentialError>(DifferentialError::InvalidConfig)
        } else {
            Ok(())
        }),
{
    if config.max_facts == 0 || config.max_fact_bytes == 0 {
        return Err(DifferentialError::InvalidConfig);
    }
    Ok(())
}

/// The fixture spelling of a call state.
pub open spec fn call_state_text(value: CallState) -> Seq<char> {
    match value {
        CallState::Created => "created"@,
        CallState::Inviting => "inviting"@,
        CallState::Early => "early"@,
        CallState::Ringing => "ringing"@,
        CallState::Answered => "answered"@,
        CallState::Active => "active"@,
        CallState::Transferring => "transferring"@,
        CallState::Ending => "ending"@,
        CallState::Ended => "ended"@,
        CallState::Failed => "failed"@,
    }
}

/// Spells a call state as fixtures record it.
pub fn call_state(value: CallState) -> (text: &'static str)
    ensures
        text@ == call_state_text(value),
{
    match value {
        CallState::Created => "created",
        CallState::Inviting => "inviting",
        CallState::Early => "early",
        CallState::Ringing => "ringing",
        CallState::Answered => "answered",
        CallState::Active => "active",
        CallState::Transferring => "transferring",
        CallState::Ending => "ending",
        CallState::Ended => "ended",
        CallState::Failed => "failed",
    }
}

/// The fixture spelling of a call lifecycle event.
pub open spec fn call_event_text(value: CallEventKind) -> Seq<char> {
    match value {
        CallEventKind::Created => "created"@,
        CallEventKind::InviteReceived => "invite-received"@,
        CallEventKind::Ringing => "ringing"@,
        CallEventKind::EarlyMedia => "early-media"@,
        CallEventKind::Answered => "answered"@,
        CallEventKind::MediaStarted => "media-started"@,
        CallEventKind::Transferring => "transferring"@,
        CallEventKind::Transferred => "transferred"@,
        CallEventKind::Hangup => "hangup"@,
        CallEventKind::Ended => "ended"@,
        CallEventKind::Failed => "failed"@,
    }
}

/// Spells a call lifecycle event as fixtures record it.
pub fn call_event(value: CallEventKind) -> (text: &'static str)
    ensures
        text@ == call_event_text(value),
{
    match value {
        CallEventKind::Created => "created",
        CallEventKind::InviteReceived => "invite-received",
        CallEventKind::Ringing => "ringing",
        CallEventKind::EarlyMedia => "early-media",
        CallEventKind::Answered => "answered",
        CallEventKind::MediaStarted => "media-started",
        CallEventKind::Transferring => "transferring",
        CallEventKind::Transferred => "transferred",
        CallEventKind::Hangup => "hangup",
        CallEventKind::Ended => "ended",
        CallEventKind::Failed => "failed",
    }
}

/// The fixture spelling of a bridge routing state.
pub open spec fn bridge_state_text(value: BridgeState) -> Seq<char> {
    match value {
        BridgeState::AiActive => "ai-active"@,
        BridgeState::ConnectingHuman => "connecting-human"@,
        BridgeState::HumanActive => "human-active"@,
        BridgeState::Ended => "ended"@,
    }
}

/// Spells a bridge routing state as fixtures record it.
pub fn bridge_state(value: BridgeState) -> (text: &'static str)
    ensures
        text@ == bridge_state_text(value),
{
    match value {
        BridgeState::AiActive => "ai-active",
        BridgeState::ConnectingHuman => "connecting-human",
        BridgeState::HumanActive => "human-active",
        BridgeState::Ended => "ended",
    }
}

/// The fixture spelling of a bridge event.
pub open spec fn bridge_event_text(value: BridgeEventKind) -> Seq<char> {
    match value {
        BridgeEventKind::Created => "created"@,
        BridgeEventKind::HumanConnecting => "human-connecting"@,
        BridgeEventKind::HumanConnected => "human-connected"@,
        BridgeEventKind::HumanFailed => "human-failed"@,
        BridgeEventKind::AiResumed => "ai-resumed"@,
        BridgeEventKind::Ended => "ended"@,
    }
}

/// Spells a bridge event as fixtures record it.
pub fn bridge_event(value: BridgeEventKind) -> (text: &'static str)
    ensures
        text@ == bridge_event_text(value),
{
    match value {
        BridgeEventKind::Created => "created",
        BridgeEventKind::HumanConnecting => "human-connecting",
        BridgeEventKind::HumanConnected => "human-connected",
        BridgeEventKind::HumanFailed => "human-failed",
        BridgeEventKind::AiResumed => "ai-resumed",
        BridgeEventKind::Ended => "ended",
    }
}

/// Every frame a queue lost, whichever end it was dropped from.
pub fn queue_drops(stats: &QueueStats) -> (drops: u64)
    ensures
        drops == (if stats.dropped_oldest + stats.dropped_newest > u64::MAX {
            u64::MAX
        } else {
            (stats.dropped_oldest + stats.dropped_newest) as u64
        }),
{
    stats.dropped_oldest.saturating_add(stats.dropped_newest)
}

impl NormalizedObservation {
    /// Returns the stable scenario slug.
    pub fn scenario(&self) -> (scenario: &str)
        ensures
            scenario@ == self@.scenario,
    {
        self.scenario.as_str()
    }

    /// Returns ordered semantic facts.
    pub fn facts(&self) -> (facts: &[String])
        ensures
            texts(facts@) == self@.facts,
    {
        self.facts.as_slice()
    }

    /// Serializes the observation into the bounded oracle fixture format.
    pub fn to_fixture(&self) -> (fixture: String)
        ensures
            fixture@ == fixture_text(self@.scenario, self@.facts),
    {
        let mut output = String::new();
        output.append("version\t1\nscenario\t");
        output.append(self.scenario.as_str());
        push_char(&mut output, '\n');
        let ghost header = output@;
        let mut index: usize = 0;
        while index < self.facts.len()
            invariant
                index <= self.facts@.len(),
                output@ == header + fact_lines(texts(self.facts@).take(index as int)),
            decreases self.facts.len() - index,
        {
            output.append("fact\t");
            output.append(self.facts[index].as_str());
            push_char(&mut output, '\n');
            proof {
                let taken = texts(self.facts@).take(index + 1);
                assert(taken.drop_last() =~= texts(self.facts@).take(index as int));
                assert(taken.last() == self.facts@[index as int]@);
            }
            index = index + 1;
        }
        proof {
            assert(texts(self.facts@).take(self.facts@.len() as int) =~= texts(self.facts@));
        }
        output
    }
}

/// One indexed semantic mismatch.
#[derive(Clone, Debug, PartialEq, Eq)]
pub struct Difference {
    /// Zero-based fact index, or `None` for the scenario identity.
    pub fact_index: Option<usize>,
    /// Oracle value, absent when Rust emitted an extra fact.
    pub expected: Option<String>,
    /// Rust value, absent when Rust omitted an oracle fact.
    pub actual: Option<String>,
}

/// A mismatch as text.
pub struct DifferenceView {
    pub fact_index: Option<usize>,
    pub expected: Option<Seq<char>>,
    pub actual: Option<Seq<char>>,
}

pub open spec fn opt_text(text: Option<String>) -> Option<Seq<char>> {
    match text {
        Some(text) => Some(text@),
        None => None,
    }
}

impl View for Difference {
    type V = DifferenceView;

    open spec fn view(&self) -> DifferenceView {
        DifferenceView {
            fact_index: self.fact_index,
            expected: opt_text(self.expected),
            actual: opt_text(self.actual),
        }
    }
}

pub open spec fn difference_views(differences: Seq<Difference>) -> Seq<DifferenceView> {
    differences.map_values(|difference: Difference| difference@)
}

/// Bounded result of comparing one Rust observation to one oracle fixture.
#[derive(Clone, Debug, PartialEq, Eq)]
pub struct Comparison {
    /// Whether scenario identity and every semantic fact matched.
    pub matched: bool,
    /// Ordered mismatches, capped by [`ComparisonConfig`].
    pub differences: Vec<Difference>,
    /// Total mismatch count before diagnostic truncation.
    pub total_differences: usize,
}

/// The fact at an index, if there is one.
pub open spec fn fact_at(facts: Seq<Seq<char>>, index: int) -> Option<Seq<char>> {
    if 0 <= index < facts.len() {
        Some(facts[index])
    } else {
        None
    }
}

/// The mismatches among the first `count` fact positions, in index order.
pub open spec fn fact_differences(
    actual: Seq<Seq<char>>,
    expected: Seq<Seq<char>>,
    count: nat,
) -> Seq<DifferenceView>
    decreases count,
{
    if count == 0 {
        Seq::empty()
    } else {
        let index = count - 1;
        fact_differences(actual, expected, (count - 1) as nat) + if fact_at(actual, index)
            == fact_at(expected, index) {
            Seq::empty()
        } else {
            seq![
                DifferenceView {
                    fact_index: Some(index as usize),
                    expected: fact_at(expected, index),
                    actual: fact_at(actual, index),
                },
            ]
        }
    }
}

/// Every mismatch between two observations: the scenario identity first,
/// then each fact position where they differ.
pub open spec fn all_differences(actual: ObservationView, expected: ObservationView) -> Seq<
    DifferenceView,
> {
    let count = if actual.facts.len() < expected.facts.len() {
        expected.facts.len()
    } else {
        actual.facts.len()
    };
    (if actual.scenario != expected.scenario {
        seq![
            DifferenceView {
                fact_index: None,
                expected: Some(expected.scenario),
                actual: Some(actual.scenario),
            },
        ]
    } else {
        Seq::empty()
    }) + fact_differences(actual.facts, expected.facts, count)
}

proof fn lemma_fact_differences_len(actual: Seq<Seq<char>>, expected: Seq<Seq<char>>, count: nat)
    ensures
        fact_differences(actual, expected, count).len() <= count,
    decreases count,
{
    if count > 0 {
        lemma_fact_differences_len(actual, expected, (count - 1) as nat);
    }
}

fn same_text(a: &String, b: &String) -> (same: bool)
    ensures
        same == (a@ == b@),
{
    *a == *b
}

fn clone_fact(facts: &Vec<String>, index: usize) -> (fact: Option<String>)
    ensures
        opt_text(fact) == fact_at(texts(facts@), index as int),
{
    if index < facts.len() {
        Some(facts[index].clone())
    } else {
        None
    }
}

/// Compares normalized Rust output with a normalized oracle observation.
///
/// Only a zero difference bound is an error; semantic mismatches are
/// reported in a successful [`Comparison`], truncated to the bound while the
/// total still counts every mismatch.
pub fn compare(
    actual: &NormalizedObservation,
    expected: &NormalizedObservation,
    config: ComparisonConfig,
) -> (result: Result<Comparison, DifferentialError>)
    requires
        actual@.facts.len() < usize::MAX,
        expected@.facts.len() < usize::MAX,
    ensures
        config.max_differences == 0 ==> result == Err::<Comparison, DifferentialError>(
            DifferentialError::InvalidConfig,
        ),
        config.max_differences > 0 ==> (result matches Ok(comparison) && {
            let all = all_differences(actual@, expected@);
            &&& comparison.total_differences == all.len()
            &&& comparison.matched == (all.len() == 0)
            &&& difference_views(comparison.differences@) == all.take(
                if all.len() < config.max_differences {
                    all.len() as int
                } else {
                    config.max_differences as int
                },
            )
        }),
{
    if config.max_differences == 0 {
        return Err(DifferentialError::InvalidConfig);
    }
    let ghost a = actual@;
    let ghost e = expected@;
    let mut differences: Vec<Difference> = Vec::new();
    let mut total_differences: usize = 0;
    let ghost mut found: Seq<DifferenceView> = Seq::empty();
    if !same_text(&actual.scenario, &expected.scenario) {
        total_differences = total_differences + 1;
        differences.push(
            Difference {
                fact_index: None,
                expected: Some(expected.scenario.clone()),
                actual: Some(actual.scenario.clone()),
            },
        );
        proof {
            found = seq![
                DifferenceView {
                    fact_index: None,
                    expected: Some(e.scenario),
                    actual: Some(a.scenario),
                },
            ];
        }
    }
    let count = if actual.facts.len() < expected.facts.len() {
        expected.facts.len()
    } else {
        actual.facts.len()
    };
    let ghost head = found;
    let mut index: usize = 0;
    proof {
        assert(difference_views(differences@) =~= found);
    }
    while index < count
        invariant
            config.max_differences > 0,
            a == actual@,
            e == expected@,
            count as int == (if a.facts.len() < e.facts.len() {
                e.facts.len()
            } else {
                a.facts.len()
            }),
            count < usize::MAX,
            index <= count,
            head.len() <= 1,
            found == head + fact_differences(a.facts, e.facts, index as nat),
            total_differences == found.len(),
            total_differences <= index + 1,
            difference_views(differences@) == found.take(
                if found.len() < config.max_differences {
                    found.len() as int
                } else {
                    config.max_differences as int
                },
            ),
        decreases count - index,
    {
        let actual_fact = clone_fact(&actual.facts, index);
        let expected_fact = clone_fact(&expected.facts, index);
        let equal = match (&actual_fact, &expected_fact) {
            (Some(x), Some(y)) => same_text(x, y),
            (None, None) => true,
            _ => false,
        };
        let ghost before = found;
        proof {
            lemma_fact_differences_len(a.facts, e.facts, index as nat);
        }
        if !equal {
            total_differences = total_differences + 1;
            let ghost entry = DifferenceView {
                fact_index: Some(index),
                expected: fact_at(e.facts, index as int),
                actual: fact_at(a.facts, index as int),
            };
            let ghost kept = differences@;
            if differences.len() < config.max_differences {
                let difference = Difference {
                    fact_index: Some(index),
                    expected: expected_fact,
                    actual: actual_fact,
                };
                proof {
                    assert(difference@ == entry);
                }
                differences.push(difference);
                proof {
                    assert(difference_views(differences@) =~= difference_views(kept).push(entry));
                }
            }
            proof {
                found = found.push(entry);
                assert(difference_views(differences@) =~= found.take(
                    if found.len() < config.max_differences {
                        found.len() as int
                    } else {
                        config.max_differences as int
                    },
                ));
            }
        }
        proof {
            assert(head + fact_differences(a.facts, e.facts, (index + 1) as nat) =~= found);
        }
        index = index + 1;
    }
    proof {
        assert(found =~= all_differences(a, e));
    }
    Ok(
        Comparison {
            matched: total_differences == 0,
            differences,
            total_differences,
        },
    )
}

/// `i` is the first line feed of `text`.
pub open spec fn is_first_newline(text: Seq<char>, i: int) -> bool {
    &&& 0 <= i < text.len()
    &&& text[i] == '\n'
    &&& forall|j: int| 0 <= j < i ==> #[trigger] text[j] != '\n'
}

pub open spec fn has_newline(text: Seq<char>) -> bool {
    exists|i: int| #[trigger] is_first_newline(text, i)
}

pub open spec fn first_newline(text: Seq<char>) -> int {
    choose|i: int| #[trigger] is_first_newline(text, i)
}

/// A line without the carriage return of its `\r\n` ending.
pub open spec fn strip_cr(line: Seq<char>) -> Seq<char> {
    if line.len() > 0 && line.last() == '\r' {
        line.drop_last()
    } else {
        line
    }
}

/// The lines of a text, split at `\n` or `\r\n`; a final line ending is
/// optional and a final empty line is not a line.
pub open spec fn fixture_lines(text: Seq<char>) -> Seq<Seq<char>>
    decreases text.len(),
{
    if text.len() == 0 {
        Seq::empty()
    } else if has_newline(text) {
        let i = first_newline(text);
        if 0 <= i < text.len() {
            seq![strip_cr(text.take(i))] + fixture_lines(text.skip(i + 1))
        } else {
            Seq::empty()
        }
    } else {
        seq![text]
    }
}

/// Every range lies within a text of the given length.
pub open spec fn ranges_within(ranges: Seq<(usize, usize)>, len: nat) -> bool {
    forall|i: int| 0 <= i < ranges.len() ==> #[trigger] ranges[i].0 <= ranges[i].1 <= len
}

pub open spec fn line_texts(chars: Seq<char>, ranges: Seq<(usize, usize)>) -> Seq<Seq<char>> {
    ranges.map_values(|range: (usize, usize)| chars.subrange(range.0 as int, range.1 as int))
}

proof fn lemma_split_at_newline(text: Seq<char>, start: int, end: int)
    requires
        0 <= start <= end < text.len(),
        text[end] == '\n',
        forall|j: int| start <= j < end ==> #[trigger] text[j] != '\n',
    ensures
        fixture_lines(text.skip(start)) == seq![strip_cr(text.subrange(start, end))] + fixture_lines(
            text.skip(end + 1),
        ),
{
    let rest = text.skip(start);
    let i = end - start;
    assert(rest[i] == text[end]);
    assert forall|j: int| 0 <= j < i implies #[trigger] rest[j] != '\n' by {
        assert(rest[j] == text[start + j]);
    }
    assert(is_first_newline(rest, i));
    let k = first_newline(rest);
    assert(is_first_newline(rest, k));
    if k < i {
        assert(rest[k] == text[start + k]);
    } else if i < k {
        assert(rest[i] != '\n');
    }
    assert(rest.take(i) =~= text.subrange(start, end));
    assert(rest.skip(i + 1) =~= text.skip(end + 1));
}

proof fn lemma_last_line(text: Seq<char>, start: int)
    requires
        0 <= start < text.len(),
        forall|j: int| start <= j < text.len() ==> #[trigger] text[j] != '\n',
    ensures
        fixture_lines(text.skip(start)) == seq![text.skip(start)],
{
    let rest = text.skip(start);
    if has_newline(rest) {
        let k = first_newline(rest);
        assert(is_first_newline(rest, k));
        assert(rest[k] == text[start + k]);
    }
}

/// Splits characters into line ranges, dropping each `\n` and the `\r` of
/// a `\r\n`.
fn split_lines(chars: &Vec<char>) -> (lines: Vec<(usize, usize)>)
    ensures
        line_texts(chars@, lines@) == fixture_lines(chars@),
        ranges_within(lines@, chars@.len()),
{
    let mut lines: Vec<(usize, usize)> = Vec::new();
    let mut start: usize = 0;
    let mut index: usize = 0;
    proof {
        assert(chars@.skip(0) =~= chars@);
        assert(line_texts(chars@, lines@) =~= Seq::<Seq<char>>::empty());
    }
    while index < chars.len()
        invariant
            start <= index <= chars@.len(),
            forall|j: int| start <= j < index ==> #[trigger] chars@[j] != '\n',
            line_texts(chars@, lines@) + fixture_lines(chars@.skip(start as int)) == fixture_lines(
                chars@,
            ),
            ranges_within(lines@, chars@.len()),
        decreases chars.len() - index,
    {
        if chars[index] == '\n' {
            let end = if index > start && chars[index - 1] == '\r' {
                index - 1
            } else {
                index
            };
            let ghost before = lines@;
            lines.push((start, end));
            proof {
                assert forall|i: int| 0 <= i < lines@.len() implies #[trigger] lines@[i].0
                    <= lines@[i].1 <= chars@.len() by {
                    if i < before.len() {
                        assert(lines@[i] == before[i]);
                    }
                }
                lemma_split_at_newline(chars@, start as int, index as int);
                assert(chars@.subrange(start as int, end as int) =~= strip_cr(
                    chars@.subrange(start as int, index as int),
                ));
                assert(line_texts(chars@, lines@) =~= line_texts(chars@, before).push(
                    strip_cr(chars@.subrange(start as int, index as int)),
                ));
            }
            start = index + 1;
        }
        index = index + 1;
    }
    if start < chars.len() {
        let ghost before = lines@;
        lines.push((start, chars.len()));
        proof {
            lemma_last_line(chars@, start as int);
            assert(chars@.subrange(start as int, chars@.len() as int) =~= chars@.skip(start as int));
            assert(line_texts(chars@, lines@) =~= line_texts(chars@, before).push(
                chars@.skip(start as int),
            ));
        }
    } else {
        proof {
            assert(chars@.skip(start as int).len() == 0);
            assert(line_texts(chars@, lines@) + Seq::<Seq<char>>::empty() =~= line_texts(chars@, lines@));
        }
    }
    lines
}

/// The UTF-8 size of a text.
pub open spec fn utf8_len(text: Seq<char>) -> nat {
    vstd::utf8::encode_utf8(text).len()
}

/// A character a fixture line may not hold: a control character other than
/// the tab that separates fields.
pub open spec fn is_forbidden(c: char) -> bool {
    (c <= '\u{1f}' || ('\u{7f}' <= c && c <= '\u{9f}')) && c != '\t'
}

pub open spec fn has_forbidden(line: Seq<char>) -> bool {
    exists|i: int| 0 <= i < line.len() && #[trigger] is_forbidden(line[i])
}

/// The first oversized or control-bearing line at or after `from`.
pub open spec fn first_fault(lines: Seq<Seq<char>>, max_line: usize, from: nat) -> Option<
    DifferentialError,
>
    decreases lines.len() - from,
{
    if from >= lines.len() {
        None
    } else if utf8_len(lines[from as int]) > max_line {
        Some(DifferentialError::FixtureLineTooLong { line: (from + 1) as usize, maximum: max_line })
    } else if has_forbidden(lines[from as int]) {
        Some(
            DifferentialError::InvalidFixture {
                line: (from + 1) as usize,
                reason: "control character",
            },
        )
    } else {
        first_fault(lines, max_line, from + 1)
    }
}

/// The facts of the lines at and after `from`, appended to `facts`: blank
/// and `#` lines are skipped, every other line is a `fact` of a known
/// category, and at most `max_facts` are kept.
pub open spec fn collect_facts(
    lines: Seq<Seq<char>>,
    max_facts: usize,
    from: nat,
    facts: Seq<Seq<char>>,
) -> Result<Seq<Seq<char>>, DifferentialError>
    decreases lines.len() - from,
{
    if from >= lines.len() {
        Ok(facts)
    } else {
        let line = lines[from as int];
        if line.len() == 0 || line[0] == '#' {
            collect_facts(lines, max_facts, from + 1, facts)
        } else if !"fact\t"@.is_prefix_of(line) {
            Err(DifferentialError::InvalidFixture { line: (from + 1) as usize, reason: "expected fact" })
        } else if !valid_category(line.skip(5)) {
            Err(
                DifferentialError::InvalidFixture {
                    line: (from + 1) as usize,
                    reason: "unknown fact category",
                },
            )
        } else if facts.len() + 1 > max_facts {
            Err(
                DifferentialError::TooManyFacts {
                    actual: (facts.len() + 1) as usize,
                    maximum: max_facts,
                },
            )
        } else {
            collect_facts(lines, max_facts, from + 1, facts.push(line.skip(5)))
        }
    }
}

/// What the lines of a fault-free fixture give: the version line, the
/// scenario line and slug, then the facts.
pub open spec fn parse_lines(lines: Seq<Seq<char>>, max_facts: usize) -> Result<
    ObservationView,
    DifferentialError,
> {
    if lines.len() == 0 || lines[0] != "version\t1"@ {
        Err(DifferentialError::InvalidFixture { line: 1, reason: "expected version 1" })
    } else if lines.len() < 2 || !"scenario\t"@.is_prefix_of(lines[1]) {
        Err(DifferentialError::InvalidFixture { line: 2, reason: "expected scenario" })
    } else if !valid_scenario(lines[1].skip(9)) {
        Err(DifferentialError::InvalidScenario)
    } else {
        match collect_facts(lines, max_facts, 2, Seq::empty()) {
            Ok(facts) => Ok(ObservationView { scenario: lines[1].skip(9), facts }),
            Err(error) => Err(error),
        }
    }
}

/// What parsing a fixture gives: bounds, then every line's size and
/// characters, then the lines themselves.
pub open spec fn parse_fixture(input: Seq<char>, config: FixtureConfig) -> Result<
    ObservationView,
    DifferentialError,
> {
    if config.max_bytes == 0 || config.max_facts == 0 || config.max_line_bytes == 0 {
        Err(DifferentialError::InvalidConfig)
    } else if utf8_len(input) > config.max_bytes {
        Err(
            DifferentialError::FixtureTooLarge {
                actual: utf8_len(input) as usize,
                maximum: config.max_bytes,
            },
        )
    } else {
        match first_fault(fixture_lines(input), config.max_line_bytes, 0) {
            Some(error) => Err(error),
            None => parse_lines(fixture_lines(input), config.max_facts),
        }
    }
}

fn range_has_forbidden(chars: &Vec<char>, from: usize, to: usize) -> (found: bool)
    requires
        from <= to <= chars@.len(),
    ensures
        found == has_forbidden(chars@.subrange(from as int, to as int)),
{
    let mut index = from;
    while index < to
        invariant
            from <= index <= to <= chars@.len(),
            forall|j: int| from <= j < index ==> !is_forbidden(#[trigger] chars@[j]),
        decreases to - index,
    {
        let c = chars[index];
        if (c <= '\u{1f}' || ('\u{7f}' <= c && c <= '\u{9f}')) && c != '\t' {
            proof {
                let line = chars@.subrange(from as int, to as int);
                assert(line[index - from] == c);
                assert(is_forbidden(line[index - from]));
            }
            return true;
        }
        index = index + 1;
    }
    proof {
        let line = chars@.subrange(from as int, to as int);
        assert forall|i: int| 0 <= i < line.len() implies !#[trigger] is_forbidden(line[i]) by {
            assert(line[i] == chars@[from + i]);
        }
    }
    false
}

fn range_starts_with(chars: &Vec<char>, from: usize, to: usize, prefix: &str) -> (starts: bool)
    requires
        from <= to <= chars@.len(),
    ensures
        starts == prefix@.is_prefix_of(chars@.subrange(from as int, to as int)),
{
    let prefix_len = prefix.unicode_len();
    if prefix_len > to - from {
        return false;
    }
    let ghost line = chars@.subrange(from as int, to as int);
    let mut index: usize = 0;
    while index < prefix_len
        invariant
            from <= to <= chars@.len(),
            line == chars@.subrange(from as int, to as int),
            prefix_len == prefix@.len(),
            prefix_len <= to - from,
            index <= prefix_len,
            forall|i: int| 0 <= i < index ==> #[trigger] prefix@[i] == line[i],
        decreases prefix_len - index,
    {
        if prefix.get_char(index) != chars[from + index] {
            proof {
                assert(line[index as int] == chars@[from + index]);
            }
            return false;
        }
        proof {
            assert(line[index as int] == chars@[from + index]);
        }
        index = index + 1;
    }
    assert(line.subrange(0, prefix@.len() as int) =~= prefix@);
    true
}

fn range_equals(chars: &Vec<char>, from: usize, to: usize, text: &str) -> (equal: bool)
    requires
        from <= to <= chars@.len(),
    ensures
        equal == (chars@.subrange(from as int, to as int) == text@),
{
    if text.unicode_len() != to - from {
        return false;
    }
    let starts = range_starts_with(chars, from, to, text);
    proof {
        if starts {
            assert(chars@.subrange(from as int, to as int) =~= text@);
        }
    }
    starts
}

fn parse_lines_of(
    chars: &Vec<char>,
    lines: &Vec<(usize, usize)>,
    max_facts: usize,
) -> (result: Result<NormalizedObservation, DifferentialError>)
    requires
        ranges_within(lines@, chars@.len()),
    ensures
        match parse_lines(line_texts(chars@, lines@), max_facts) {
            Ok(view) => result matches Ok(observation) && observation@ == view,
            Err(error) => result == Err::<NormalizedObservation, DifferentialError>(error),
        },
{
    let ghost all = line_texts(chars@, lines@);
    proof {
        if all.len() > 0 {
            assert(all[0] == chars@.subrange(lines@[0].0 as int, lines@[0].1 as int));
        }
        if all.len() > 1 {
            assert(all[1] == chars@.subrange(lines@[1].0 as int, lines@[1].1 as int));
        }
    }
    if lines.len() == 0 || !range_equals(chars, lines[0].0, lines[0].1, "version\t1") {
        return Err(DifferentialError::InvalidFixture { line: 1, reason: "expected version 1" });
    }
    if lines.len() < 2 || !range_starts_with(chars, lines[1].0, lines[1].1, "scenario\t") {
        return Err(DifferentialError::InvalidFixture { line: 2, reason: "expected scenario" });
    }
    proof {
        reveal_strlit("scenario\t");
        reveal_strlit("fact\t");
    }
    let scenario = text_of(chars, lines[1].0 + 9, lines[1].1);
    proof {
        assert(scenario@ =~= all[1].skip(9));
    }
    if let Err(error) = validate_scenario(scenario.as_str()) {
        return Err(error);
    }
    let mut facts: Vec<String> = Vec::new();
    let mut index: usize = 2;
    proof {
        assert(valid_scenario(all[1].skip(9)));
        assert(texts(facts@) =~= Seq::<Seq<char>>::empty());
        assert(all[0] == "version\t1"@);
        assert("scenario\t"@.is_prefix_of(all[1]));
        assert(parse_lines(all, max_facts) == match collect_facts(all, max_facts, 2, Seq::empty()) {
            Ok(found) => Ok(ObservationView { scenario: scenario@, facts: found }),
            Err(error) => Err(error),
        });
    }
    while index < lines.len()
        invariant
            all == line_texts(chars@, lines@),
            all.len() == lines@.len(),
            ranges_within(lines@, chars@.len()),
            2 <= index <= lines@.len(),
            "fact\t"@.len() == 5,
            facts@.len() <= max_facts,
            parse_lines(all, max_facts) == match collect_facts(all, max_facts, 2, Seq::empty()) {
                Ok(found) => Ok(ObservationView { scenario: scenario@, facts: found }),
                Err(error) => Err(error),
            },
            collect_facts(all, max_facts, 2, Seq::empty()) == collect_facts(
                all,
                max_facts,
                index as nat,
                texts(facts@),
            ),
        decreases lines.len() - index,
    {
        let (from, to) = lines[index];
        let ghost line = all[index as int];
        proof {
            assert(line == chars@.subrange(from as int, to as int));
        }
        if from < to && chars[from] != '#' {
            proof {
                assert(line[0] == chars@[from as int]);
            }
            if !range_starts_with(chars, from, to, "fact\t") {
                proof {
                    assert(collect_facts(all, max_facts, index as nat, texts(facts@)) == Err::<
                        Seq<Seq<char>>,
                        DifferentialError,
                    >(DifferentialError::InvalidFixture { line: (index + 1) as usize, reason: "expected fact" }));
                }
                return Err(DifferentialError::InvalidFixture { line: index + 1, reason: "expected fact" });
            }
            let fact = text_of(chars, from + 5, to);
            proof {
                assert(fact@ =~= line.skip(5));
            }
            if !valid_fact_category(fact.as_str()) {
                proof {
                    assert(collect_facts(all, max_facts, index as nat, texts(facts@)) == Err::<
                        Seq<Seq<char>>,
                        DifferentialError,
                    >(
                        DifferentialError::InvalidFixture {
                            line: (index + 1) as usize,
                            reason: "unknown fact category",
                        },
                    ));
                }
                return Err(
                    DifferentialError::InvalidFixture { line: index + 1, reason: "unknown fact category" },
                );
            }
            let ghost before = facts@;
            facts.push(fact);
            proof {
                assert(texts(facts@) =~= texts(before).push(line.skip(5)));
            }
            if facts.len() > max_facts {
                proof {
                    assert(collect_facts(all, max_facts, index as nat, texts(before)) == Err::<
                        Seq<Seq<char>>,
                        DifferentialError,
                    >(DifferentialError::TooManyFacts { actual: facts@.len() as usize, maximum: max_facts }));
                }
                return Err(DifferentialError::TooManyFacts { actual: facts.len(), maximum: max_facts });
            }
        } else {
            proof {
                if from < to {
                    assert(line[0] == chars@[from as int]);
                }
            }
        }
        index = index + 1;
    }
    proof {
        assert(collect_facts(all, max_facts, index as nat, texts(facts@)) == Ok::<
            Seq<Seq<char>>,
            DifferentialError,
        >(texts(facts@)));
    }
    Ok(NormalizedObservation { scenario, facts })
}

proof fn lemma_utf8_len_concat(a: Seq<char>, b: Seq<char>)
    ensures
        utf8_len(a + b) == utf8_len(a) + utf8_len(b),
    decreases a.len(),
{
    if a.len() > 0 {
        assert((a + b)[0] == a[0]);
        assert((a + b).drop_first() =~= a.drop_first() + b);
        lemma_utf8_len_concat(a.drop_first(), b);
    } else {
        assert(a + b =~= b);
    }
}

proof fn lemma_utf8_len_subrange(text: Seq<char>, from: int, to: int)
    requires
        0 <= from <= to <= text.len(),
    ensures
        utf8_len(text.subrange(from, to)) <= utf8_len(text),
{
    let head = text.subrange(0, from);
    let middle = text.subrange(from, to);
    let tail = text.subrange(to, text.len() as int);
    assert(text =~= head + middle + tail);
    lemma_utf8_len_concat(head + middle, tail);
    lemma_utf8_len_concat(head, middle);
}

/// Parses a bounded normalized oracle fixture.
///
/// Converted sanitized captures must emit this same format, so the
/// comparator needs no capture-source-specific path. Bounds are checked
/// first, then every line's size and characters, then the version and
/// scenario lines and each fact; errors carry one-based line numbers.
pub fn parse_oracle_fixture(input: &str, config: FixtureConfig) -> (result: Result<
    NormalizedObservation,
    DifferentialError,
>)
    requires
        utf8_len(input@) <= usize::MAX,
    ensures
        match parse_fixture(input@, config) {
            Ok(view) => result matches Ok(observation) && observation@ == view,
            Err(error) => result == Err::<NormalizedObservation, DifferentialError>(error),
        },
{
    if config.max_bytes == 0 || config.max_facts == 0 || config.max_line_bytes == 0 {
        return Err(DifferentialError::InvalidConfig);
    }
    let size = input.len();
    if size > config.max_bytes {
        return Err(DifferentialError::FixtureTooLarge { actual: size, maximum: config.max_bytes });
    }
    let chars = collect_chars(input);
    let lines = split_lines(&chars);
    let ghost all = fixture_lines(input@);
    let mut index: usize = 0;
    while index < lines.len()
        invariant
            chars@ == input@,
            utf8_len(input@) <= usize::MAX,
            utf8_len(input@) <= config.max_bytes,
            config.max_bytes > 0 && config.max_facts > 0 && config.max_line_bytes > 0,
            all == fixture_lines(input@),
            line_texts(chars@, lines@) == all,
            all.len() == lines@.len(),
            ranges_within(lines@, chars@.len()),
            index <= lines@.len(),
            first_fault(all, config.max_line_bytes, 0) == first_fault(
                all,
                config.max_line_bytes,
                index as nat,
            ),
        decreases lines.len() - index,
    {
        let (from, to) = lines[index];
        proof {
            assert(all[index as int] == chars@.subrange(from as int, to as int));
        }
        let text = text_of(&chars, from, to);
        proof {
            lemma_utf8_len_subrange(input@, from as int, to as int);
        }
        if text.as_str().len() > config.max_line_bytes {
            proof {
                assert(first_fault(all, config.max_line_bytes, index as nat) == Some(
                    DifferentialError::FixtureLineTooLong {
                        line: (index + 1) as usize,
                        maximum: config.max_line_bytes,
                    },
                ));
            }
            return Err(
                DifferentialError::FixtureLineTooLong {
                    line: index + 1,
                    maximum: config.max_line_bytes,
                },
            );
        }
        if range_has_forbidden(&chars, from, to) {
            proof {
                assert(utf8_len(all[index as int]) <= config.max_line_bytes);
                assert(has_forbidden(all[index as int]));
                assert(first_fault(all, config.max_line_bytes, index as nat) is Some);
                assert(first_fault(all, config.max_line_bytes, index as nat) == Some(
                    DifferentialError::InvalidFixture {
                        line: (index + 1) as usize,
                        reason: "control character",
                    },
                ));
            }
            return Err(DifferentialError::InvalidFixture { line: index + 1, reason: "control character" });
        }
        index = index + 1;
    }
    proof {
        assert(first_fault(all, config.max_line_bytes, index as nat) is None);
    }
    parse_lines_of(&chars, &lines, config.max_facts)
}

/// The lines of a fixture text: the version line, the scenario line, then
/// one `fact` line per fact.
pub open spec fn fixture_line_list(scenario: Seq<char>, facts: Seq<Seq<char>>) -> Seq<Seq<char>> {
    seq!["version\t1"@, "scenario\t"@ + scenario] + facts.map_values(
        |fact: Seq<char>| "fact\t"@ + fact,
    )
}

proof fn lemma_append_line(text: Seq<char>, line: Seq<char>)
    requires
        text.len() == 0 || text.last() == '\n',
        forall|i: int| 0 <= i < line.len() ==> #[trigger] line[i] != '\n',
        line.len() == 0 || line.last() != '\r',
    ensures
        fixture_lines(text + line + seq!['\n']) == fixture_lines(text).push(line),
    decreases text.len(),
{
    let whole = text + line + seq!['\n'];
    if text.len() == 0 {
        assert(whole =~= line + seq!['\n']);
        let end = line.len() as int;
        assert(whole[end] == '\n');
        assert forall|j: int| 0 <= j < end implies #[trigger] whole[j] != '\n' by {
            assert(whole[j] == line[j]);
        }
        assert(is_first_newline(whole, end));
        let k = first_newline(whole);
        assert(is_first_newline(whole, k));
        if k < end {
            assert(whole[k] == line[k]);
        } else if end < k {
            assert(whole[end] == '\n');
        }
        assert(whole.take(end) =~= line);
        assert(whole.skip(end + 1).len() == 0);
        assert(fixture_lines(text) =~= Seq::<Seq<char>>::empty());
        assert(seq![strip_cr(line)] + fixture_lines(whole.skip(end + 1)) =~= seq![line]);
    } else {
        let last = text.len() - 1;
        assert(text[last] == '\n');
        assert(has_newline(text)) by {
            let first = choose|i: int| 0 <= i < text.len() && text[i] == '\n' && forall|j: int| 0 <= j < i ==> text[j] != '\n';
            lemma_first_newline_exists(text, last);
        }
        let i = first_newline(text);
        assert(is_first_newline(text, i));
        assert(is_first_newline(whole, i)) by {
            assert(whole[i] == text[i]);
            assert forall|j: int| 0 <= j < i implies #[trigger] whole[j] != '\n' by {
                assert(whole[j] == text[j]);
            }
        }
        let k = first_newline(whole);
        assert(is_first_newline(whole, k));
        if k < i {
            assert(whole[k] == text[k]);
        } else if i < k {
            assert(whole[i] == '\n');
        }
        let rest = text.skip(i + 1);
        assert(whole.take(i) =~= text.take(i));
        assert(whole.skip(i + 1) =~= rest + line + seq!['\n']);
        assert(rest.len() == 0 || rest.last() == '\n') by {
            if rest.len() > 0 {
                assert(rest.last() == text.last());
            }
        }
        lemma_append_line(rest, line);
        assert(fixture_lines(text) == seq![strip_cr(text.take(i))] + fixture_lines(rest));
        assert(fixture_lines(whole) == seq![strip_cr(text.take(i))] + fixture_lines(
            rest + line + seq!['\n'],
        ));
        assert(fixture_lines(whole) =~= fixture_lines(text).push(line));
    }
}

proof fn lemma_first_newline_exists(text: Seq<char>, at: int)
    requires
        0 <= at < text.len(),
        text[at] == '\n',
    ensures
        has_newline(text),
    decreases at,
{
    if forall|j: int| 0 <= j < at ==> #[trigger] text[j] != '\n' {
        assert(is_first_newline(text, at));
    } else {
        let j = choose|j: int| 0 <= j < at && #[trigger] text[j] == '\n';
        lemma_first_newline_exists(text, j);
    }
}

proof fn lemma_fixture_lines(scenario: Seq<char>, facts: Seq<Seq<char>>)
    requires
        valid_scenario(scenario),
        forall|i: int| 0 <= i < facts.len() ==> !has_forbidden(#[trigger] facts[i]),
    ensures
        fixture_lines(fixture_text(scenario, facts)) == fixture_line_list(scenario, facts),
        fixture_text(scenario, facts).len() > 0,
        fixture_text(scenario, facts).last() == '\n',
    decreases facts.len(),
{
    reveal_strlit("version\t1\nscenario\t");
    reveal_strlit("version\t1");
    reveal_strlit("scenario\t");
    reveal_strlit("fact\t");
    if facts.len() == 0 {
        let version = "version\t1"@;
        let named = "scenario\t"@ + scenario;
        assert(fact_lines(facts) =~= Seq::<char>::empty());
        assert(fixture_text(scenario, facts) =~= Seq::<char>::empty() + version + seq!['\n'] + named
            + seq!['\n']);
        assert forall|i: int| 0 <= i < named.len() implies #[trigger] named[i] != '\n' by {
            if i >= 9 {
                assert(named[i] == scenario[i - 9]);
                assert(is_slug_char(scenario[i - 9]));
            }
        }
        assert(named.last() == scenario.last());
        assert(is_slug_char(scenario[scenario.len() - 1]));
        assert(forall|i: int| 0 <= i < version.len() ==> #[trigger] version[i] != '\n');
        lemma_append_line(Seq::<char>::empty(), version);
        assert(Seq::<char>::empty() + version + seq!['\n'] =~= version + seq!['\n']);
        assert(fixture_lines(Seq::<char>::empty()) =~= Seq::<Seq<char>>::empty());
        lemma_append_line(version + seq!['\n'], named);
        assert(fixture_line_list(scenario, facts) =~= seq![version, named]);
    } else {
        let shorter = facts.drop_last();
        let fact = facts.last();
        assert forall|i: int| 0 <= i < shorter.len() implies !has_forbidden(#[trigger] shorter[i]) by {
            assert(shorter[i] == facts[i]);
        }
        lemma_fixture_lines(scenario, shorter);
        let line = "fact\t"@ + fact;
        assert(!has_forbidden(facts[facts.len() - 1]));
        assert forall|i: int| 0 <= i < line.len() implies #[trigger] line[i] != '\n' by {
            if i >= 5 {
                assert(line[i] == fact[i - 5]);
                assert(!is_forbidden(fact[i - 5]));
            }
        }
        if fact.len() > 0 {
            assert(line.last() == fact.last());
            assert(!is_forbidden(fact[fact.len() - 1]));
        }
        let before = fixture_text(scenario, shorter);
        assert(fixture_text(scenario, facts) =~= before + line + seq!['\n']);
        lemma_append_line(before, line);
        assert(fixture_line_list(scenario, facts) =~= fixture_line_list(scenario, shorter).push(line));
    }
}

proof fn lemma_no_fault(lines: Seq<Seq<char>>, max_line: usize, from: nat)
    requires
        forall|i: int| from <= i < lines.len() ==> utf8_len(#[trigger] lines[i]) <= max_line
            && !has_forbidden(lines[i]),
    ensures
        first_fault(lines, max_line, from) is None,
    decreases lines.len() - from,
{
    if from < lines.len() {
        lemma_no_fault(lines, max_line, from + 1);
    }
}

proof fn lemma_collect_all(lines: Seq<Seq<char>>, facts: Seq<Seq<char>>, max_facts: usize, count: nat)
    requires
        lines.len() == facts.len() + 2,
        count <= facts.len(),
        facts.len() <= max_facts,
        forall|i: int| 0 <= i < facts.len() ==> valid_category(#[trigger] facts[i]),
        forall|i: int| 0 <= i < facts.len() ==> #[trigger] lines[i + 2] == "fact\t"@ + facts[i],
        "fact\t"@ == seq!['f', 'a', 'c', 't', '\t'],
    ensures
        collect_facts(lines, max_facts, 2 + count, facts.take(count as int)) == Ok::<
            Seq<Seq<char>>,
            DifferentialError,
        >(facts),
    decreases facts.len() - count,
{
    if count < facts.len() {
        let line = lines[count as int + 2];
        let fact = facts[count as int];
        assert(line == "fact\t"@ + fact);
        assert(line[0] == 'f');
        assert("fact\t"@.is_prefix_of(line)) by {
            assert(line.subrange(0, 5) =~= "fact\t"@);
        }
        assert(line.skip(5) =~= fact);
        assert(facts.take(count as int).push(fact) =~= facts.take(count as int + 1));
        lemma_collect_all(lines, facts, max_facts, count + 1);
    } else {
        assert(facts.take(count as int) =~= facts);
    }
}

/// The fixture format round-trips: parsing the fixture text of a valid
/// observation (a slug scenario and known-category facts without control
/// characters, within the parser's bounds) gives the observation back.
pub proof fn law_fixture_round_trip(scenario: Seq<char>, facts: Seq<Seq<char>>, config: FixtureConfig)
    requires
        config.max_bytes > 0,
        config.max_line_bytes > 0,
        valid_scenario(scenario),
        forall|i: int| 0 <= i < facts.len() ==> valid_category(#[trigger] facts[i]) && !has_forbidden(
            facts[i],
        ),
        facts.len() <= config.max_facts,
        0 < config.max_facts,
        utf8_len(fixture_text(scenario, facts)) <= config.max_bytes,
        forall|i: int|
            0 <= i < fixture_line_list(scenario, facts).len() ==> utf8_len(
                #[trigger] fixture_line_list(scenario, facts)[i],
            ) <= config.max_line_bytes,
    ensures
        parse_fixture(fixture_text(scenario, facts), config) == Ok::<
            ObservationView,
            DifferentialError,
        >(ObservationView { scenario, facts }),
{
    reveal_strlit("version\t1");
    reveal_strlit("scenario\t");
    reveal_strlit("fact\t");
    assert forall|i: int| 0 <= i < facts.len() implies !has_forbidden(#[trigger] facts[i]) by {}
    lemma_fixture_lines(scenario, facts);
    let lines = fixture_line_list(scenario, facts);
    assert forall|i: int| 0 <= i < lines.len() implies utf8_len(#[trigger] lines[i])
        <= config.max_line_bytes && !has_forbidden(lines[i]) by {
        if i == 0 {
            assert(lines[0] == "version\t1"@);
            if has_forbidden(lines[0]) {
                let k = choose|k: int| 0 <= k < lines[0].len() && #[trigger] is_forbidden(lines[0][k]);
                assert(!is_forbidden(lines[0][k]));
            }
        } else if i == 1 {
            let named = lines[1];
            assert(named == "scenario\t"@ + scenario);
            if has_forbidden(named) {
                let k = choose|k: int| 0 <= k < named.len() && #[trigger] is_forbidden(named[k]);
                if k >= 9 {
                    assert(named[k] == scenario[k - 9]);
                    assert(is_slug_char(scenario[k - 9]));
                }
            }
        } else {
            let fact = facts[i - 2];
            assert(lines[i] == "fact\t"@ + fact);
            assert(!has_forbidden(fact));
            if has_forbidden(lines[i]) {
                let k = choose|k: int| 0 <= k < lines[i].len() && #[trigger] is_forbidden(lines[i][k]);
                if k >= 5 {
                    assert(lines[i][k] == fact[k - 5]);
                }
            }
        }
    }
    lemma_no_fault(lines, config.max_line_bytes, 0);
    assert("scenario\t"@.is_prefix_of(lines[1])) by {
        assert(lines[1].subrange(0, 9) =~= "scenario\t"@);
    }
    assert(lines[1].skip(9) =~= scenario);
    assert forall|i: int| 0 <= i < facts.len() implies #[trigger] lines[i + 2] == "fact\t"@ + facts[i] by {}
    assert("fact\t"@ =~= seq!['f', 'a', 'c', 't', '\t']);
    lemma_collect_all(lines, facts, config.max_facts, 0);
    assert(facts.take(0) =~= Seq::<Seq<char>>::empty());
}

proof fn lemma_no_fact_differences(actual: Seq<Seq<char>>, expected: Seq<Seq<char>>, count: nat)
    ensures
        fact_differences(actual, expected, count).len() == 0 <==> forall|i: int|
            0 <= i < count ==> #[trigger] fact_at(actual, i) == fact_at(expected, i),
    decreases count,
{
    if count > 0 {
        lemma_no_fact_differences(actual, expected, (count - 1) as nat);
        lemma_fact_differences_len(actual, expected, (count - 1) as nat);
    }
}

/// Comparison finds no difference exactly when the observations are equal:
/// same scenario and same facts in the same order.
pub proof fn law_comparison_matches_only_equal_observations(
    actual: ObservationView,
    expected: ObservationView,
)
    ensures
        all_differences(actual, expected).len() == 0 <==> (actual.scenario == expected.scenario
            && actual.facts == expected.facts),
{
    let count = if actual.facts.len() < expected.facts.len() {
        expected.facts.len()
    } else {
        actual.facts.len()
    };
    lemma_no_fact_differences(actual.facts, expected.facts, count);
    if actual.scenario == expected.scenario && actual.facts == expected.facts {
        assert forall|i: int| 0 <= i < count implies #[trigger] fact_at(actual.facts, i) == fact_at(
            expected.facts,
            i,
        ) by {}
    }
    if all_differences(actual, expected).len() == 0 {
        assert(actual.scenario == expected.scenario);
        if actual.facts.len() != expected.facts.len() {
            let shorter = if actual.facts.len() < expected.facts.len() {
                actual.facts.len()
            } else {
                expected.facts.len()
            };
            assert(fact_at(actual.facts, shorter as int) == fact_at(expected.facts, shorter as int));
        }
        assert forall|i: int| 0 <= i < actual.facts.len() implies actual.facts[i]
            == expected.facts[i] by {
            assert(fact_at(actual.facts, i) == fact_at(expected.facts, i));
        }
        assert(actual.facts =~= expected.facts);
    }
}

proof fn lemma_fault_free(lines: Seq<Seq<char>>, max_line: usize, from: nat)
    requires
        first_fault(lines, max_line, from) is None,
    ensures
        forall|i: int| from <= i < lines.len() ==> utf8_len(#[trigger] lines[i]) <= max_line
            && !has_forbidden(lines[i]),
    decreases lines.len() - from,
{
    if from < lines.len() {
        lemma_fault_free(lines, max_line, from + 1);
    }
}

/// `fact` is the fact of some `fact` line of `lines`, of a known category.
pub open spec fn fact_of_some_line(lines: Seq<Seq<char>>, fact: Seq<char>) -> bool {
    exists|j: int| 0 <= j < lines.len() && #[trigger] lines[j] == "fact\t"@ + fact && valid_category(fact)
}

proof fn lemma_collected_facts(
    lines: Seq<Seq<char>>,
    max_facts: usize,
    from: nat,
    facts: Seq<Seq<char>>,
)
    requires
        collect_facts(lines, max_facts, from, facts) is Ok,
        facts.len() <= max_facts,
        forall|i: int| 0 <= i < facts.len() ==> fact_of_some_line(lines, #[trigger] facts[i]),
    ensures
        ({
            let all = collect_facts(lines, max_facts, from, facts)->Ok_0;
            &&& all.len() <= max_facts
            &&& forall|i: int| 0 <= i < all.len() ==> fact_of_some_line(lines, #[trigger] all[i])
        }),
    decreases lines.len() - from,
{
    if from < lines.len() {
        let line = lines[from as int];
        if line.len() == 0 || line[0] == '#' {
            lemma_collected_facts(lines, max_facts, from + 1, facts);
        } else {
            reveal_strlit("fact\t");
            let fact = line.skip(5);
            assert(line =~= "fact\t"@ + fact);
            let more = facts.push(fact);
            assert(fact_of_some_line(lines, fact));
            assert forall|i: int| 0 <= i < more.len() implies fact_of_some_line(lines, #[trigger] more[i]) by {
                if i < facts.len() {
                    assert(more[i] == facts[i]);
                }
            }
            lemma_collected_facts(lines, max_facts, from + 1, more);
        }
    }
}

/// A fixture that parses re-renders to a fixture that parses back to the same
/// observation, whenever the rendering fits the byte bound (the rendering
/// drops blank and comment lines, so it is never longer in lines).
pub proof fn law_parsed_fixture_round_trip(input: Seq<char>, config: FixtureConfig)
    requires
        parse_fixture(input, config) is Ok,
        utf8_len(
            fixture_text(
                parse_fixture(input, config)->Ok_0.scenario,
                parse_fixture(input, config)->Ok_0.facts,
            ),
        ) <= config.max_bytes,
    ensures
        parse_fixture(
            fixture_text(
                parse_fixture(input, config)->Ok_0.scenario,
                parse_fixture(input, config)->Ok_0.facts,
            ),
            config,
        ) == parse_fixture(input, config),
{
    reveal_strlit("fact\t");
    reveal_strlit("scenario\t");
    let o = parse_fixture(input, config)->Ok_0;
    let lines = fixture_lines(input);
    lemma_fault_free(lines, config.max_line_bytes, 0);
    assert(collect_facts(lines, config.max_facts, 2, Seq::empty()) == Ok::<
        Seq<Seq<char>>,
        DifferentialError,
    >(o.facts));
    lemma_collected_facts(lines, config.max_facts, 2, Seq::empty());
    assert(lines[1] =~= "scenario\t"@ + o.scenario);
    let out = fixture_line_list(o.scenario, o.facts);
    assert forall|i: int| 0 <= i < o.facts.len() implies valid_category(#[trigger] o.facts[i])
        && !has_forbidden(o.facts[i]) by {
        assert(fact_of_some_line(lines, o.facts[i]));
        let j = choose|j: int| 0 <= j < lines.len() && #[trigger] lines[j] == "fact\t"@ + o.facts[i]
            && valid_category(o.facts[i]);
        assert(!has_forbidden(lines[j]));
        if has_forbidden(o.facts[i]) {
            let k = choose|k: int| 0 <= k < o.facts[i].len() && #[trigger] is_forbidden(o.facts[i][k]);
            assert(lines[j][k + 5] == o.facts[i][k]);
        }
    }
    assert forall|i: int| 0 <= i < out.len() implies utf8_len(#[trigger] out[i])
        <= config.max_line_bytes by {
        if i == 0 {
            assert(out[0] == lines[0]);
        } else if i == 1 {
            assert(out[1] == lines[1]);
        } else {
            let f = o.facts[i - 2];
            assert(out[i] == "fact\t"@ + f);
            assert(fact_of_some_line(lines, f));
            let j = choose|j: int| 0 <= j < lines.len() && #[trigger] lines[j] == "fact\t"@ + f
                && valid_category(f);
            assert(out[i] == lines[j]);
        }
    }
    law_fixture_round_trip(o.scenario, o.facts, config);
}

/// The fixture `to_fixture` renders for the observation parsed from `input`.
pub open spec fn rendered_fixture(input: Seq<char>, config: FixtureConfig) -> Seq<char> {
    fixture_text(parse_fixture(input, config)->Ok_0.scenario, parse_fixture(input, config)->Ok_0.facts)
}

/// A parsed observation, rendered by `to_fixture` and parsed again, is the
/// same observation whenever the rendered fixture's `len()` is within
/// `max_bytes`. `str::len` reports the UTF-8 size as a `usize`; the rendered
/// fixture is a string held in memory, so that size fits in one.
pub proof fn law_rendered_fixture_round_trip(input: Seq<char>, config: FixtureConfig)
    requires
        parse_fixture(input, config) is Ok,
        utf8_len(rendered_fixture(input, config)) <= usize::MAX,
        (utf8_len(rendered_fixture(input, config)) as usize) <= config.max_bytes,
    ensures
        parse_fixture(rendered_fixture(input, config), config) == parse_fixture(input, config),
{
    law_parsed_fixture_round_trip(input, config);
}

/// The fact positions below `count` where two fact lists differ.
pub open spec fn mismatched_positions(actual: Seq<Seq<char>>, expected: Seq<Seq<char>>, count: nat) -> Set<
    int,
> {
    Set::new(|i: int| 0 <= i < count && fact_at(actual, i) != fact_at(expected, i))
}

proof fn lemma_mismatch_count(actual: Seq<Seq<char>>, expected: Seq<Seq<char>>, count: nat)
    ensures
        mismatched_positions(actual, expected, count).finite(),
        fact_differences(actual, expected, count).len() == mismatched_positions(
            actual,
            expected,
            count,
        ).len(),
    decreases count,
{
    if count == 0 {
        assert(mismatched_positions(actual, expected, 0) =~= Set::<int>::empty());
    } else {
        let previous = mismatched_positions(actual, expected, (count - 1) as nat);
        lemma_mismatch_count(actual, expected, (count - 1) as nat);
        let index = count - 1;
        if fact_at(actual, index) == fact_at(expected, index) {
            assert(mismatched_positions(actual, expected, count) =~= previous);
        } else {
            assert(mismatched_positions(actual, expected, count) =~= previous.insert(index));
            assert(!previous.contains(index));
        }
    }
}

/// Comparison counts every mismatch: one for a different scenario plus one
/// per fact position, up to the longer fact list, where the facts differ.
pub proof fn law_difference_count(actual: ObservationView, expected: ObservationView)
    ensures
        ({
            let count = if actual.facts.len() < expected.facts.len() {
                expected.facts.len()
            } else {
                actual.facts.len()
            };
            all_differences(actual, expected).len() == (if actual.scenario != expected.scenario {
                1nat
            } else {
                0nat
            }) + mismatched_positions(actual.facts, expected.facts, count).len()
        }),
{
    let count = if actual.facts.len() < expected.facts.len() {
        expected.facts.len()
    } else {
        actual.facts.len()
    };
    lemma_mismatch_count(actual.facts, expected.facts, count);
}

} // verus!
