use ailly::calibration::{compute_calibration, Agreement, CalibrationError, HumanVerdict};
use ailly::eval::{AssertionReport, BucketTotals, CaseReport, EvalReport, MatchReport, ReportTotals};

fn assertion(outcome: &str) -> AssertionReport {
    AssertionReport {
        class: String::from("judge"),
        outcome: String::from(outcome),
        reason: None,
    }
}

fn match_report(conversation: &str, assertions: Vec<AssertionReport>) -> MatchReport {
    MatchReport {
        conversation: String::from(conversation),
        assertions,
    }
}

fn case(name: &str, matches: Vec<MatchReport>) -> CaseReport {
    CaseReport {
        name: Some(String::from(name)),
        matches,
    }
}

fn report_with(cases: Vec<CaseReport>) -> EvalReport {
    EvalReport {
        suite: String::from("judge-calibration"),
        run_id: String::from("test-run"),
        model: None,
        metrics: None,
        totals: ReportTotals {
            conversations_matched: 0,
            assertions: BucketTotals {
                passed: 0,
                failed: 0,
                deferred: 0,
                malformed: 0,
                errored: 0,
            },
        },
        per_class: Vec::new(),
        cases,
    }
}

#[test]
fn zero_matches_is_rejected_with_no_match() {
    let report = report_with(vec![case("example-01", vec![])]);
    let labels = Vec::new();
    let result = compute_calibration(&report, &labels);
    assert!(
        matches!(&result, Err(CalibrationError::NoMatch { case }) if case == "example-01"),
        "expected NoMatch, got {result:?}"
    );
}

#[test]
fn two_matches_is_rejected_with_multiple_matches() {
    let report = report_with(vec![case(
        "example-01",
        vec![match_report("a.yaml", vec![assertion("pass")]), match_report("b.yaml", vec![assertion("pass")])],
    )]);
    let labels = Vec::new();
    let result = compute_calibration(&report, &labels);
    assert!(
        matches!(&result, Err(CalibrationError::MultipleMatches { case, count: 2 }) if case == "example-01"),
        "expected MultipleMatches {{ count: 2 }}, got {result:?}"
    );
}

#[test]
fn case_name_absent_from_labels_is_rejected_with_missing_label() {
    let report = report_with(vec![
        case("example-01", vec![match_report("a.yaml", vec![assertion("pass")])]),
        case("example-02", vec![match_report("b.yaml", vec![assertion("fail")])]),
    ]);
    let labels = vec![(String::from("example-01"), HumanVerdict::Pass)];
    let result = compute_calibration(&report, &labels);
    assert!(
        matches!(&result, Err(CalibrationError::MissingLabel { case }) if case == "example-02"),
        "expected MissingLabel {{ case: \"example-02\" }}, got {result:?}"
    );
}

#[test]
fn errored_or_deferred_outcomes_are_excluded_from_considered_and_agreements() {
    let report = report_with(vec![
        case("example-01", vec![match_report("a.yaml", vec![assertion("pass")])]),
        case("example-02", vec![match_report("b.yaml", vec![assertion("deferred")])]),
        case("example-03", vec![match_report("c.yaml", vec![assertion("fail")])]),
    ]);
    let labels = vec![
        (String::from("example-01"), HumanVerdict::Pass),
        (String::from("example-02"), HumanVerdict::Pass),
        (String::from("example-03"), HumanVerdict::Fail),
    ];
    let calibration = compute_calibration(&report, &labels).expect("all three cases are well-formed");
    assert_eq!(calibration.excluded, 1, "only example-02 is deferred");
    assert_eq!(calibration.considered, 2);
    let example_02 = calibration
        .examples
        .iter()
        .find(|e| e.id == "example-02")
        .expect("example-02 present in breakdown");
    assert_eq!(example_02.agreement, Agreement::Excluded);
}

#[test]
fn malformed_outcome_always_disagrees_regardless_of_human_verdict() {
    let report = report_with(vec![
        case("example-01", vec![match_report("a.yaml", vec![assertion("malformed")])]),
        case("example-02", vec![match_report("b.yaml", vec![assertion("malformed")])]),
    ]);
    let labels = vec![
        (String::from("example-01"), HumanVerdict::Pass),
        (String::from("example-02"), HumanVerdict::Fail),
    ];
    let calibration = compute_calibration(&report, &labels).expect("both cases are well-formed");
    for id in ["example-01", "example-02"] {
        let example = calibration
            .examples
            .iter()
            .find(|e| e.id == id)
            .unwrap_or_else(|| panic!("{id} present in breakdown"));
        assert_eq!(example.agreement, Agreement::Disagree, "malformed must disagree, got {example:#?}");
    }
    assert_eq!(calibration.agreements, 0);
}

#[test]
fn pass_agrees_with_pass_label_and_disagrees_with_fail_label() {
    let report = report_with(vec![
        case("example-01", vec![match_report("a.yaml", vec![assertion("pass")])]),
        case("example-02", vec![match_report("b.yaml", vec![assertion("pass")])]),
    ]);
    let labels = vec![
        (String::from("example-01"), HumanVerdict::Pass),
        (String::from("example-02"), HumanVerdict::Fail),
    ];
    let calibration = compute_calibration(&report, &labels).expect("both cases are well-formed");
    let example_01 = calibration.examples.iter().find(|e| e.id == "example-01").expect("example-01 present");
    let example_02 = calibration.examples.iter().find(|e| e.id == "example-02").expect("example-02 present");
    assert_eq!(example_01.agreement, Agreement::Agree);
    assert_eq!(example_02.agreement, Agreement::Disagree);
    assert_eq!(calibration.agreements, 1);
}

fn n_examples(n: usize) -> (EvalReport, Vec<(String, HumanVerdict)>) {
    let mut cases = Vec::new();
    let mut labels = Vec::new();
    for k in 1..n {
        let name = format!("example-{k:02}");
        cases.push(case(&name, vec![match_report("a.yaml", vec![assertion("pass")])]));
        labels.push((name, HumanVerdict::Pass));
    }
    let last = format!("example-{n:02}");
    cases.push(case(&last, vec![match_report("a.yaml", vec![assertion("pass")])]));
    labels.push((last, HumanVerdict::Fail));
    (report_with(cases), labels)
}

#[test]
fn nine_considered_eight_agree_counts() {
    let (report, labels) = n_examples(9);
    let calibration = compute_calibration(&report, &labels).expect("all nine well-formed");
    assert_eq!(calibration.total_examples, 9);
    assert_eq!(calibration.considered, 9);
    assert_eq!(calibration.agreements, 8);
}

#[test]
fn ten_considered_nine_agree_counts() {
    let (report, labels) = n_examples(10);
    let calibration = compute_calibration(&report, &labels).expect("all ten well-formed");
    assert_eq!(calibration.considered, 10);
    assert_eq!(calibration.agreements, 9);
    assert_eq!(calibration.suite, "judge-calibration");
    assert_eq!(calibration.run_id, "test-run");
}

#[test]
fn two_assertions_on_one_match_is_rejected_with_multiple_assertions() {
    let report = report_with(vec![case(
        "example-01",
        vec![match_report("a.yaml", vec![assertion("pass"), assertion("fail")])],
    )]);
    let labels = Vec::new();
    let result = compute_calibration(&report, &labels);
    assert!(
        matches!(&result, Err(CalibrationError::MultipleAssertions { case, count: 2 }) if case == "example-01"),
        "expected MultipleAssertions {{ count: 2 }}, got {result:?}"
    );
}

#[test]
fn calibration_error_messages_name_the_case() {
    let e = CalibrationError::MissingLabel { case: String::from("example-07") };
    assert!(e.message().contains("example-07"));
}

#[test]
fn nine_considered_eight_agree_is_just_under_the_bar() {
    let (report, labels) = n_examples(9);
    let calibration = compute_calibration(&report, &labels).expect("all nine well-formed");
    assert_eq!(calibration.considered, 9);
    assert_eq!(calibration.agreements, 8);
    let rate = calibration.agreements as f64 / calibration.considered as f64;
    assert!((rate - 8.0 / 9.0).abs() < 1e-9, "expected 8/9, got {rate}");
    assert!(!calibration.meets_bar(), "8/9 must not clear the inclusive >= 0.90 bar");
}

#[test]
fn ten_considered_nine_agree_lands_exactly_on_the_bar() {
    let (report, labels) = n_examples(10);
    let calibration = compute_calibration(&report, &labels).expect("all ten well-formed");
    assert_eq!(calibration.considered, 10);
    assert_eq!(calibration.agreements, 9);
    let rate = calibration.agreements as f64 / calibration.considered as f64;
    assert!((rate - 0.9).abs() < 1e-9);
    assert!(calibration.meets_bar(), "0.9 must clear the inclusive >= 0.90 bar");
}
