use call_platform::bridge::{BridgeEventKind, BridgeState};
use call_platform::call_core::{CallEventKind, CallState};
use call_platform::differential::{bridge_event, bridge_state, call_event, call_state};
use call_platform::differential::{
    compare, parse_oracle_fixture, queue_drops, valid_fact_category, validate_normalization,
    validate_scenario, ComparisonConfig, DifferentialError, FixtureConfig, NormalizationConfig,
};
use call_platform::media::QueueStats;

const FIXTURE: &str = "version\t1\nscenario\tinbound-cancelled\n# comment\n\nfact\ttiming order-only\nfact\tsip 1 endpoint-1 response 100 cseq=1/INVITE sip-call-1 body=none\r\nfact\tcleanup calls=0 bridges=0 transactions=0\n";

#[test]
fn fixture_parses_and_round_trips_through_its_text() {
    let observation = parse_oracle_fixture(FIXTURE, FixtureConfig::default()).unwrap();
    assert_eq!(observation.scenario(), "inbound-cancelled");
    assert_eq!(observation.facts().len(), 3);
    assert_eq!(observation.facts()[0], "timing order-only");
    assert_eq!(
        observation.facts()[1],
        "sip 1 endpoint-1 response 100 cseq=1/INVITE sip-call-1 body=none"
    );
    let text = observation.to_fixture();
    assert_eq!(
        text,
        "version\t1\nscenario\tinbound-cancelled\nfact\ttiming order-only\nfact\tsip 1 endpoint-1 response 100 cseq=1/INVITE sip-call-1 body=none\nfact\tcleanup calls=0 bridges=0 transactions=0\n"
    );
    let reparsed = parse_oracle_fixture(&text, FixtureConfig::default()).unwrap();
    assert_eq!(reparsed, observation);
    let comparison = compare(&reparsed, &observation, ComparisonConfig::default()).unwrap();
    assert!(comparison.matched);
    assert_eq!(comparison.total_differences, 0);
    assert!(comparison.differences.is_empty());
}

#[test]
fn fixture_parser_rejects_unknown_categories_and_bounds() {
    let unknown = "version\t1\nscenario\ttest\nfact\tunknown value\n";
    assert_eq!(
        parse_oracle_fixture(unknown, FixtureConfig::default()),
        Err(DifferentialError::InvalidFixture {
            line: 3,
            reason: "unknown fact category",
        })
    );
    assert_eq!(
        parse_oracle_fixture(
            FIXTURE,
            FixtureConfig {
                max_bytes: 1,
                ..FixtureConfig::default()
            }
        ),
        Err(DifferentialError::FixtureTooLarge {
            actual: FIXTURE.len(),
            maximum: 1,
        })
    );
    assert_eq!(
        parse_oracle_fixture(
            FIXTURE,
            FixtureConfig {
                max_facts: 0,
                ..FixtureConfig::default()
            }
        ),
        Err(DifferentialError::InvalidConfig)
    );
    let observation = parse_oracle_fixture(FIXTURE, FixtureConfig::default()).unwrap();
    assert_eq!(
        compare(&observation, &observation, ComparisonConfig { max_differences: 0 }),
        Err(DifferentialError::InvalidConfig)
    );
}

#[test]
fn fixture_errors_name_their_line() {
    let config = FixtureConfig::default();
    assert_eq!(
        parse_oracle_fixture("version\t2\nscenario\tx\n", config),
        Err(DifferentialError::InvalidFixture {
            line: 1,
            reason: "expected version 1",
        })
    );
    assert_eq!(
        parse_oracle_fixture("version\t1\nname\tx\n", config),
        Err(DifferentialError::InvalidFixture {
            line: 2,
            reason: "expected scenario",
        })
    );
    assert_eq!(
        parse_oracle_fixture("version\t1\nscenario\tbad slug\n", config),
        Err(DifferentialError::InvalidScenario)
    );
    assert_eq!(
        parse_oracle_fixture("version\t1\nscenario\tx\nnote\tcall y\n", config),
        Err(DifferentialError::InvalidFixture {
            line: 3,
            reason: "expected fact",
        })
    );
    assert_eq!(
        parse_oracle_fixture("version\t1\nscenario\tx\nfact\tcall \u{7}\n", config),
        Err(DifferentialError::InvalidFixture {
            line: 3,
            reason: "control character",
        })
    );
    assert_eq!(
        parse_oracle_fixture(
            "version\t1\nscenario\tx\nfact\tcall 123456\n",
            FixtureConfig {
                max_line_bytes: 10,
                ..config
            }
        ),
        Err(DifferentialError::FixtureLineTooLong {
            line: 3,
            maximum: 10,
        })
    );
    assert_eq!(
        parse_oracle_fixture(
            "version\t1\nscenario\tx\nfact\tcall a\nfact\tcall b\n",
            FixtureConfig {
                max_facts: 1,
                ..config
            }
        ),
        Err(DifferentialError::TooManyFacts {
            actual: 2,
            maximum: 1,
        })
    );
    assert_eq!(
        parse_oracle_fixture("", config),
        Err(DifferentialError::InvalidFixture {
            line: 1,
            reason: "expected version 1",
        })
    );
    let unicode = parse_oracle_fixture("version\t1\nscenario\tx\nfact\tcall caf\u{e9}\n", config)
        .unwrap();
    assert_eq!(unicode.facts()[0], "call caf\u{e9}");
}

#[test]
fn comparison_reports_and_bounds_semantic_differences() {
    let actual = parse_oracle_fixture(FIXTURE, FixtureConfig::default()).unwrap();
    let changed = FIXTURE
        .replace("response 100", "response 183")
        .replace("cleanup calls=0", "cleanup calls=1");
    let expected = parse_oracle_fixture(&changed, FixtureConfig::default()).unwrap();
    let comparison = compare(&actual, &expected, ComparisonConfig { max_differences: 1 }).unwrap();

    assert!(!comparison.matched);
    assert_eq!(comparison.total_differences, 2);
    assert_eq!(comparison.differences.len(), 1);
    assert_eq!(comparison.differences[0].fact_index, Some(1));
    assert!(comparison.differences[0]
        .expected
        .as_deref()
        .unwrap()
        .contains("response 183"));

    let other = parse_oracle_fixture(
        "version\t1\nscenario\tother\nfact\ttiming order-only\n",
        FixtureConfig::default(),
    )
    .unwrap();
    let comparison = compare(&actual, &other, ComparisonConfig::default()).unwrap();
    assert_eq!(comparison.total_differences, 3);
    assert_eq!(comparison.differences[0].fact_index, None);
    assert_eq!(comparison.differences[0].expected.as_deref(), Some("other"));
    assert_eq!(comparison.differences[2].fact_index, Some(2));
    assert_eq!(comparison.differences[2].expected, None);
}

#[test]
fn slugs_categories_and_drop_counts() {
    assert_eq!(validate_scenario("a.b-c_1"), Ok(()));
    assert_eq!(validate_scenario(""), Err(DifferentialError::InvalidScenario));
    assert_eq!(validate_scenario("a/b"), Err(DifferentialError::InvalidScenario));
    assert!(valid_fact_category("bridge-event 1 bridge-1 created"));
    assert!(!valid_fact_category("bridge"));
    assert_eq!(
        validate_normalization(NormalizationConfig {
            max_facts: 0,
            ..NormalizationConfig::default()
        }),
        Err(DifferentialError::InvalidConfig)
    );
    assert_eq!(validate_normalization(NormalizationConfig::default()), Ok(()));
    let stats = QueueStats {
        depth: 0,
        capacity: 4,
        pushed: 10,
        dropped_oldest: u64::MAX,
        dropped_newest: 3,
    };
    assert_eq!(queue_drops(&stats), u64::MAX);
}

#[test]
fn lifecycle_names_use_stable_fixture_spellings() {
    assert_eq!(call_state(CallState::Transferring), "transferring");
    assert_eq!(call_event(CallEventKind::InviteReceived), "invite-received");
    assert_eq!(call_event(CallEventKind::EarlyMedia), "early-media");
    assert_eq!(bridge_state(BridgeState::ConnectingHuman), "connecting-human");
    assert_eq!(bridge_event(BridgeEventKind::AiResumed), "ai-resumed");
}

#[test]
fn parsed_fixtures_render_and_parse_back_to_the_same_observation() {
    let config = FixtureConfig::default();
    let observation = parse_oracle_fixture(FIXTURE, config).unwrap();
    let rendered = observation.to_fixture();
    assert!(rendered.len() <= FIXTURE.len());
    assert_eq!(parse_oracle_fixture(&rendered, config).unwrap(), observation);
}

#[test]
fn comparison_counts_scenario_and_each_differing_fact() {
    let actual = parse_oracle_fixture(
        "version\t1\nscenario\ta\nfact\ttiming order-only\nfact\tcleanup calls=0\n",
        FixtureConfig::default(),
    )
    .unwrap();
    let expected = parse_oracle_fixture(
        "version\t1\nscenario\tb\nfact\ttiming order-only\nfact\tcleanup calls=1\nfact\tcleanup calls=2\n",
        FixtureConfig::default(),
    )
    .unwrap();
    let comparison = compare(&actual, &expected, ComparisonConfig { max_differences: 2 }).unwrap();
    assert_eq!(comparison.total_differences, 3);
    assert!(!comparison.matched);
    assert_eq!(comparison.differences.len(), 2);
    assert_eq!(comparison.differences[0].fact_index, None);
    assert_eq!(comparison.differences[1].fact_index, Some(1));
}
