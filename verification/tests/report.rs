use ailly::eval::{AssertionReport, BucketTotals, CaseReport, EvalReport, MatchReport, ReportTotals};
use ailly::report::{compute_comparison, render_comparison_markdown, render_single_markdown};

fn a(class: &str, outcome: &str) -> AssertionReport {
    AssertionReport {
        class: String::from(class),
        outcome: String::from(outcome),
        reason: None,
    }
}

fn case(name: Option<&str>, conversation: &str, assertions: Vec<AssertionReport>) -> CaseReport {
    CaseReport {
        name: name.map(String::from),
        matches: vec![MatchReport {
            conversation: String::from(conversation),
            assertions,
        }],
    }
}

fn report(run_id: &str, passed: usize, failed: usize, cases: Vec<CaseReport>) -> EvalReport {
    EvalReport {
        suite: String::from("suite"),
        run_id: String::from(run_id),
        model: None,
        metrics: None,
        totals: ReportTotals {
            conversations_matched: cases.len(),
            assertions: BucketTotals { passed, failed, deferred: 0, malformed: 0, errored: 0 },
        },
        per_class: Vec::new(),
        cases,
    }
}

fn arms() -> (EvalReport, EvalReport) {
    let arm_a = report(
        "run-a",
        2,
        2,
        vec![
            case(Some("beta"), "b.yaml", vec![a("text_contains", "fail"), a("tokens", "pass")]),
            case(Some("alpha"), "a.yaml", vec![a("text_equals", "pass"), a("judge", "deferred")]),
            case(None, "c.yaml", vec![a("text_contains", "fail")]),
        ],
    );
    let arm_b = report(
        "run-b",
        2,
        2,
        vec![
            case(Some("beta"), "b.yaml", vec![a("text_contains", "pass"), a("tokens", "fail")]),
            case(Some("alpha"), "a.yaml", vec![a("text_equals", "pass"), a("judge", "pass")]),
            case(None, "c.yaml", vec![a("text_contains", "pass")]),
        ],
    );
    (arm_a, arm_b)
}

#[test]
fn comparison_pairs_by_case_conversation_and_class() {
    let (arm_a, arm_b) = arms();
    let cmp = compute_comparison(&arm_a, &arm_b);
    assert_eq!(cmp.arm_a.run_id, "run-a");
    assert_eq!(cmp.arm_b.run_id, "run-b");
    assert_eq!(cmp.totals.improved, 1);
    assert_eq!(cmp.totals.regressed, 1);
    assert_eq!(cmp.totals.unchanged_pass, 1);
    assert_eq!(cmp.totals.unchanged_fail, 0);
    assert_eq!(cmp.totals.total_assertions, 3);
    let names: Vec<&str> = cmp.cases.iter().map(|c| c.case.as_str()).collect();
    assert_eq!(names, vec!["alpha", "beta"]);
    let beta: Vec<(&str, &str)> =
        cmp.cases[1].assertions.iter().map(|x| (x.class.as_str(), x.change.as_str())).collect();
    assert_eq!(beta, vec![("text_contains", "Improved"), ("tokens", "Regressed")]);
}

#[test]
fn comparison_markdown_has_summary_rows_and_drill_down() {
    let (arm_a, arm_b) = arms();
    let md = render_comparison_markdown(&compute_comparison(&arm_a, &arm_b), "A", "B");
    assert!(md.starts_with("# Report: run-a vs run-b\n\n"), "{md}");
    assert!(md.contains("**Summary:** improved 1, regressed 1, unchanged pass 1, unchanged fail 0\n\n"), "{md}");
    assert!(md.contains("| alpha | +0 / -0 | |\n| beta | +1 / -1 | |\n"), "{md}");
    assert!(md.contains("## Changed assertions\n\n### beta\n\n| Class | A | B | Change |\n"), "{md}");
    assert!(md.contains("| text_contains | fail | pass | Improved |\n| tokens | pass | fail | Regressed |\n"), "{md}");
}

#[test]
fn comparison_without_changes_has_no_drill_down() {
    let (arm_a, _) = arms();
    let md = render_comparison_markdown(&compute_comparison(&arm_a, &arm_a), "A", "B");
    assert!(!md.contains("## Changed assertions"), "{md}");
}

#[test]
fn single_markdown_shows_pass_rate_and_class_columns() {
    let (_, arm_b) = arms();
    let md = render_single_markdown(&arm_b);
    assert!(md.starts_with("# Report: suite \u{2014} run-b\n\n**Pass rate:** 2 / 4 (50%)\n\n"), "{md}");
    assert!(md.contains("| Case | judge | text_contains | text_equals | tokens |\n"), "{md}");
    assert!(md.contains("| beta | \u{2014} | pass | \u{2014} | fail |\n"), "{md}");
    assert!(md.contains("| (unnamed) | \u{2014} | pass | \u{2014} | \u{2014} |\n"), "{md}");
}

#[test]
fn single_markdown_pass_rate_is_zero_without_decided_assertions() {
    let empty = report("r", 0, 0, Vec::new());
    assert!(render_single_markdown(&empty).contains("**Pass rate:** 0 / 0 (0%)"));
}
