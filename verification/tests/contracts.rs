use csv_render::error::{DetailValue, ValidationError};
use csv_render::flags_contract::FlagRules;
use csv_render::time_contract::{TimeConstraint, TimeMonotonicity, TimeUnit};

fn s(x: &str) -> String {
    x.to_string()
}

fn rules() -> FlagRules {
    FlagRules {
        allowed: vec![s("cognitive_liberty"), s("mental_privacy"), s("consent_required"), s("anonymized"), s("identified")],
        exclusive: vec![(s("anonymized"), s("identified"))],
        requires: vec![(s("mental_privacy"), s("consent_required"))],
        min: Some(1),
        max: Some(3),
        contract_name: s("neurorights-v1"),
    }
}

fn semantic(r: Result<(), ValidationError>) -> (&'static str, usize, usize, String, Vec<(&'static str, DetailValue)>) {
    match r {
        Err(ValidationError::Semantic { code, row, column, message, details }) => (code, row, column, message, details),
        other => panic!("unexpected {:?}", other),
    }
}

fn text(v: &DetailValue) -> String {
    match v {
        DetailValue::Text(t) => t.clone(),
        DetailValue::Number(n) => panic!("number {}", n),
    }
}

fn number(v: &DetailValue) -> u64 {
    match v {
        DetailValue::Number(n) => *n,
        DetailValue::Text(t) => panic!("text {}", t),
    }
}

#[test]
fn parse_flags_trims_drops_empty_and_dedups() {
    let mut flags = FlagRules::parse_flags(" a ; b;;a ;  ", ';');
    flags.sort();
    assert_eq!(flags, vec![s("a"), s("b")]);
    assert!(FlagRules::parse_flags("", ';').is_empty());
    assert!(FlagRules::parse_flags(" ; ;", ';').is_empty());
}

#[test]
fn accepted_flag_set_passes() {
    let set = FlagRules::parse_flags("cognitive_liberty;mental_privacy;consent_required", ';');
    assert!(rules().validate(3, 4, &set).is_ok());
}

#[test]
fn unknown_flag_is_reported_with_contract() {
    let (code, row, col, message, details) = semantic(rules().validate(3, 4, &vec![s("cognitive_liberty"), s("telepathy")]));
    assert_eq!(code, "T2_FLAG_UNKNOWN");
    assert_eq!((row, col), (3, 4));
    assert_eq!(message, "flag 'telepathy' is not allowed");
    assert_eq!(details[0].0, "flag");
    assert_eq!(text(&details[0].1), "telepathy");
    assert_eq!(details[1].0, "allowed_contract");
    assert_eq!(text(&details[1].1), "neurorights-v1");
}

#[test]
fn exclusive_flags_clash() {
    let (code, _, _, message, details) = semantic(rules().validate(1, 1, &vec![s("identified"), s("anonymized")]));
    assert_eq!(code, "T2_FLAG_MUTUALLY_EXCLUSIVE");
    assert_eq!(message, "flags 'anonymized' and 'identified' may not co-occur in the same row");
    assert_eq!(details.iter().map(|d| d.0).collect::<Vec<_>>(), vec!["a", "b", "allowed_contract"]);
}

#[test]
fn missing_implication_is_reported() {
    let (code, _, _, message, details) = semantic(rules().validate(1, 1, &vec![s("mental_privacy")]));
    assert_eq!(code, "T2_FLAG_MISSING_IMPLICATION");
    assert_eq!(message, "flag 'mental_privacy' requires 'consent_required'");
    assert_eq!(text(&details[0].1), "mental_privacy");
    assert_eq!(text(&details[1].1), "consent_required");
}

#[test]
fn cardinality_bounds_are_enforced() {
    let (code, _, _, message, details) = semantic(rules().validate(1, 1, &vec![]));
    assert_eq!(code, "T2_FLAG_CARDINALITY_MIN");
    assert_eq!(message, "0 flags < min 1");
    assert_eq!(number(&details[0].1), 0);
    assert_eq!(number(&details[1].1), 1);
    let four = vec![s("cognitive_liberty"), s("mental_privacy"), s("consent_required"), s("anonymized")];
    let (code, _, _, message, _) = semantic(rules().validate(1, 1, &four));
    assert_eq!(code, "T2_FLAG_CARDINALITY_MAX");
    assert_eq!(message, "4 flags > max 3");
}

#[test]
fn repeated_flags_count_once() {
    let set = vec![s("cognitive_liberty"), s("cognitive_liberty"), s("cognitive_liberty"), s("cognitive_liberty")];
    assert!(rules().validate(1, 1, &set).is_ok());
}

#[test]
fn time_stamp_must_parse() {
    let mut tc = TimeConstraint::new(TimeUnit::Seconds, 0, u64::MAX, TimeMonotonicity::NonDecreasing);
    let (code, row, col, message, details) = semantic(tc.validate(2, 3, " soon "));
    assert_eq!(code, "T2_TIME_PARSE");
    assert_eq!((row, col), (2, 3));
    assert_eq!(message, "timestamp 'soon' is not a valid u64");
    assert_eq!(details[0].0, "value");
    assert_eq!(text(&details[0].1), "soon");
}

#[test]
fn time_stamp_must_be_in_range() {
    let mut tc = TimeConstraint::new(TimeUnit::Seconds, 100, 200, TimeMonotonicity::Unordered);
    let (code, _, _, message, details) = semantic(tc.validate(1, 1, "201"));
    assert_eq!(code, "T2_TIME_RANGE_VIOLATION");
    assert_eq!(message, "timestamp 201 is outside allowed range [100..=200]");
    assert_eq!(details.iter().map(|d| number(&d.1)).collect::<Vec<_>>(), vec![201, 100, 200]);
    assert!(tc.validate(1, 1, "100").is_ok());
    assert!(tc.validate(1, 1, "99").is_err());
}

#[test]
fn non_decreasing_time_stamps_refuse_going_back() {
    let mut tc = TimeConstraint::new(TimeUnit::Seconds, 0, u64::MAX, TimeMonotonicity::NonDecreasing);
    assert!(tc.validate(1, 3, "1690000005").is_ok());
    assert!(tc.validate(2, 3, "1690000005").is_ok());
    let (code, row, col, message, details) = semantic(tc.validate(42, 3, "1690000000"));
    assert_eq!(code, "T2_TIME_MONOTONICITY_VIOLATION");
    assert_eq!((row, col), (42, 3));
    assert_eq!(message, "timestamp 1690000000 violates non_decreasing ordering (previous 1690000005)");
    assert_eq!(number(&details[0].1), 1690000000);
    assert_eq!(number(&details[1].1), 1690000005);
    assert_eq!(text(&details[2].1), "non_decreasing");
    // the refused time stamp did not become the previous one
    assert!(tc.validate(43, 3, "1690000005").is_ok());
}

#[test]
fn strictly_increasing_time_stamps_refuse_repeats() {
    let mut tc = TimeConstraint::new(TimeUnit::Milliseconds, 0, u64::MAX, TimeMonotonicity::StrictIncreasing);
    assert!(tc.validate(1, 1, "10").is_ok());
    let (code, _, _, message, _) = semantic(tc.validate(2, 1, "10"));
    assert_eq!(code, "T2_TIME_MONOTONICITY_VIOLATION");
    assert_eq!(message, "timestamp 10 violates strict_increasing ordering (previous 10)");
    assert!(tc.validate(3, 1, "11").is_ok());
}

#[test]
fn unordered_and_per_group_accept_any_order() {
    for m in [TimeMonotonicity::Unordered, TimeMonotonicity::PerGroup] {
        let mut tc = TimeConstraint::new(TimeUnit::Nanoseconds, 0, 1000, m);
        assert!(tc.validate(1, 1, "500").is_ok());
        assert!(tc.validate(2, 1, "5").is_ok());
    }
}

#[test]
fn accepted_run_never_decreases() {
    let mut tc = TimeConstraint::new(TimeUnit::Seconds, 0, 100, TimeMonotonicity::NonDecreasing);
    let mut accepted = Vec::new();
    for v in ["5", "3", "x", "7", "101", "7", "6", "50"] {
        if tc.validate(1, 1, v).is_ok() {
            accepted.push(v.parse::<u64>().unwrap());
        }
    }
    assert_eq!(accepted, vec![5, 7, 7, 50]);
}
