use ailly::assertions::{Assertion, Op, ScriptBody, ScriptRuntime, TokenMetric, ToolCallSpec};
use ailly::conversation::{BindingMap, Content, Conversation, Message, Meta, Role, TokenCounts, Trace, YamlValue};
use ailly::assertions::{EvaluationContext, NumberRanks};
use ailly::eval::{case_tag, class_tag, collect_run_metrics, evaluate, filename_of, stem_of, sanitize_case_name, BucketTotals, Case, ConversationFile, EvalArgs, EvalReport, Evaluation};

fn conv(binding: &[(&str, &str)], assistant_text: &str) -> Conversation {
    let mut map = BindingMap::new();
    for (k, v) in binding {
        map.insert(k, YamlValue::Str(String::from(*v)));
    }
    Conversation {
        meta: Meta {
            model: String::from("noop"),
            debug: false,
            assembly: None,
            binding: map,
        },
        session: vec![Message {
            role: Role::Assistant,
            body: Some(Content::Text(String::from(assistant_text))),
            cache: false,
            trace: None,
        }],
    }
}

fn file(path: &str, conversation: Conversation) -> ConversationFile {
    ConversationFile {
        path: String::from(path),
        conversation,
        document: String::new(),
    }
}

fn case_named(name: &str, assertions: Vec<Assertion>) -> Case {
    Case {
        name: Some(String::from(name)),
        when: BindingMap::new(),
        assertions,
    }
}

fn case_when(when: &[(&str, &str)], assertions: Vec<Assertion>) -> Case {
    let mut map = BindingMap::new();
    for (k, v) in when {
        map.insert(k, YamlValue::Str(String::from(*v)));
    }
    Case {
        name: None,
        when: map,
        assertions,
    }
}

fn case_fanout(assertions: Vec<Assertion>) -> Case {
    Case {
        name: None,
        when: BindingMap::new(),
        assertions,
    }
}

fn all_variants() -> Vec<(Assertion, &'static str)> {
    vec![
        (Assertion::Judge { prompt: String::new() }, "judge"),
        (
            Assertion::Tool {
                tool_call: ToolCallSpec {
                    tool: String::from("t"),
                    with_args: None,
                },
            },
            "tool",
        ),
        (
            Assertion::Script {
                runtime: ScriptRuntime::Python,
                script: ScriptBody::Contents {
                    contents: String::from("x"),
                },
                pass_env: Vec::new(),
            },
            "script",
        ),
        (
            Assertion::Program {
                script: String::from("./x"),
                pass_env: Vec::new(),
            },
            "program",
        ),
        (
            Assertion::MustCallTool {
                tool: String::from("t"),
                with_args: None,
            },
            "must_call_tool",
        ),
        (Assertion::MustNotCallTool { tool: String::from("t") }, "must_not_call_tool"),
        (
            Assertion::ToolCallCount {
                tool: None,
                op: Op::Eq,
                value: 0,
            },
            "tool_call_count",
        ),
        (Assertion::ToolCallOrder { sequence: vec![] }, "tool_call_order"),
        (
            Assertion::TextContains {
                value: String::new(),
                case_sensitive: None,
            },
            "text_contains",
        ),
        (
            Assertion::TextNotContains {
                value: String::new(),
                case_sensitive: None,
            },
            "text_not_contains",
        ),
        (
            Assertion::TextMatches {
                pattern: String::new(),
                flags: None,
            },
            "text_matches",
        ),
        (Assertion::TextEquals { value: String::new() }, "text_equals"),
        (
            Assertion::TextSemanticMatch {
                value: String::new(),
                threshold: None,
            },
            "text_semantic_match",
        ),
        (
            Assertion::JsonPath {
                path: String::from("$"),
                op: Op::Eq,
                value: String::from("null"),
            },
            "json_path",
        ),
        (
            Assertion::ResponseField {
                path: String::from("$"),
                exists: true,
            },
            "response_field",
        ),
        (
            Assertion::Tokens {
                metric: TokenMetric::Total,
                op: Op::Eq,
                value: 0,
            },
            "tokens",
        ),
        (Assertion::LatencyMs { op: Op::Eq, value: 0 }, "latency_ms"),
    ]
}

#[test]
fn class_tag_matches_serde_tag_for_every_variant() {
    for (assertion, expected_tag) in all_variants() {
        assert_eq!(class_tag(&assertion), expected_tag, "tag for {assertion:?}");
    }
}

#[test]
fn case_tag_uses_sanitized_name_for_named_case() {
    let case = case_named("over-limit", vec![]);
    assert_eq!(case_tag(&case, 7), "over-limit");
}

#[test]
fn case_tag_sanitizes_path_separators_in_name() {
    let case = case_named("a/b\\c", vec![]);
    assert_eq!(case_tag(&case, 0), "a_b_c");
}

#[test]
fn case_tag_falls_back_to_index_for_when_filtered_case() {
    let case = case_when(&[("axis", "x")], vec![]);
    assert_eq!(case_tag(&case, 2), "case-2");
}

#[test]
fn case_tag_falls_back_to_index_for_fanout_case() {
    let case = case_fanout(vec![]);
    assert_eq!(case_tag(&case, 0), "case-0");
}

#[test]
fn collect_run_metrics_returns_none_metrics_when_no_message_carries_trace() {
    let conversations = vec![file("a.yaml", conv(&[], "hello")), file("b.yaml", conv(&[], "world"))];
    let (model, metrics) = collect_run_metrics(&conversations);
    assert_eq!(model.as_deref(), Some("noop"));
    assert!(metrics.is_none());
}

#[test]
fn collect_run_metrics_returns_none_for_empty_run() {
    let (model, metrics) = collect_run_metrics(&vec![]);
    assert!(model.is_none());
    assert!(metrics.is_none());
}

#[test]
fn collect_run_metrics_sums_traced_messages() {
    let mut c = conv(&[], "hi");
    c.session[0].trace = Some(Trace {
        latency_ms: 40,
        tokens: TokenCounts {
            input: 10,
            output: 5,
            cache_hit: Some(3),
            cache_write: None,
        },
    });
    let mut d = conv(&[], "there");
    d.session[0].trace = Some(Trace {
        latency_ms: 60,
        tokens: TokenCounts {
            input: 1,
            output: 2,
            cache_hit: None,
            cache_write: None,
        },
    });
    let conversations = vec![file("a.yaml", c), file("b.yaml", d), file("c.yaml", conv(&[], "x"))];
    let (model, metrics) = collect_run_metrics(&conversations);
    assert_eq!(model.as_deref(), Some("noop"));
    let m = metrics.unwrap();
    assert_eq!(m.total_input_tokens, 11);
    assert_eq!(m.total_output_tokens, 7);
    assert_eq!(m.total_cache_hit_tokens, 3);
    assert_eq!(m.total_latency_ms, 100);
    assert_eq!(m.conversations_with_trace, 2);
}

#[test]
fn sanitize_case_name_replaces_both_separators_and_keeps_the_rest() {
    assert_eq!(sanitize_case_name("x/y"), "x_y");
    assert_eq!(sanitize_case_name("plain"), "plain");
    assert_eq!(sanitize_case_name("\\\\"), "__");
}

fn suite_with(cases: Vec<Case>) -> Evaluation {
    Evaluation {
        name: String::from("regression"),
        cases,
    }
}

fn run(suite: &Evaluation, conversations: &Vec<ConversationFile>) -> EvalReport {
    let numbers = NumberRanks { ranks: Vec::new() };
    let args = EvalArgs {
        suite,
        conversations,
        numbers: &numbers,
        ctx: EvaluationContext::empty(),
        suite_name: "regression",
        run_id: "run-1",
        judge_output_dir: None,
    };
    evaluate(args)
}

fn class_totals(report: &EvalReport, class: &str) -> BucketTotals {
    report
        .per_class
        .iter()
        .find(|(c, _)| c == class)
        .map(|(_, t)| *t)
        .unwrap_or(BucketTotals { passed: 0, failed: 0, deferred: 0, malformed: 0, errored: 0 })
}

fn contains(value: &str) -> Assertion {
    Assertion::TextContains {
        value: String::from(value),
        case_sensitive: None,
    }
}

#[test]
fn name_hit_runs_assertions_against_matched_conversation_only() {
    let suite = suite_with(vec![case_named("alpha", vec![contains("hello")])]);
    let conversations = vec![file("alpha.yaml", conv(&[], "hello world")), file("beta.yaml", conv(&[], "nope"))];
    let report = run(&suite, &conversations);
    assert_eq!(report.totals.assertions.passed, 1);
    assert_eq!(report.totals.conversations_matched, 1);
    assert_eq!(report.cases[0].matches.len(), 1);
    assert_eq!(report.cases[0].matches[0].conversation, "alpha.yaml");
}

#[test]
fn name_miss_synthesizes_missing_conversation_malformed() {
    let suite = suite_with(vec![case_named("nope", vec![contains("")])]);
    let conversations = vec![file("alpha.yaml", conv(&[], ""))];
    let report = run(&suite, &conversations);
    assert_eq!(report.totals.assertions.malformed, 1);
    assert_eq!(report.totals.conversations_matched, 0);
    assert_eq!(class_totals(&report, "missing_conversation").malformed, 1);
    assert_eq!(report.cases[0].matches[0].assertions[0].class, "missing_conversation");
}

#[test]
fn when_filter_matches_subset_of_conversations() {
    let suite = suite_with(vec![case_when(&[("severity", "high")], vec![contains("alert")])]);
    let conversations = vec![
        file("a.yaml", conv(&[("severity", "high")], "alert: a")),
        file("b.yaml", conv(&[("severity", "low")], "ok")),
        file("c.yaml", conv(&[("severity", "high")], "alert: c")),
    ];
    let report = run(&suite, &conversations);
    assert_eq!(report.totals.conversations_matched, 2);
    assert_eq!(report.totals.assertions.passed, 2);
    assert_eq!(report.cases[0].matches.len(), 2);
}

#[test]
fn when_filter_zero_match_is_not_flagged_malformed() {
    let suite = suite_with(vec![case_when(&[("severity", "critical")], vec![contains("")])]);
    let conversations = vec![file("a.yaml", conv(&[("severity", "low")], ""))];
    let report = run(&suite, &conversations);
    assert_eq!(report.totals.assertions.malformed, 0);
    assert_eq!(report.totals.conversations_matched, 0);
    assert!(report.cases[0].matches.is_empty());
}

#[test]
fn no_filter_case_fans_out_to_every_conversation() {
    let suite = suite_with(vec![case_fanout(vec![contains("x")])]);
    let conversations =
        vec![file("a.yaml", conv(&[], "x")), file("b.yaml", conv(&[], "x")), file("c.yaml", conv(&[], "x"))];
    let report = run(&suite, &conversations);
    assert_eq!(report.totals.conversations_matched, 3);
    assert_eq!(report.totals.assertions.passed, 3);
}

#[test]
fn every_outcome_bucket_flows_to_totals_and_per_class() {
    let suite = suite_with(vec![case_named(
        "alpha",
        vec![
            contains("hello"),
            Assertion::TextEquals { value: String::from("no-match") },
            Assertion::TextMatches { pattern: String::from("[unclosed"), flags: None },
            Assertion::Judge { prompt: String::from("anything") },
        ],
    )]);
    let conversations = vec![file("alpha.yaml", conv(&[], "hello world"))];
    let report = run(&suite, &conversations);
    assert_eq!(report.totals.assertions.passed, 1);
    assert_eq!(report.totals.assertions.failed, 1);
    assert_eq!(report.totals.assertions.deferred, 1);
    assert_eq!(report.totals.assertions.malformed, 1);
    assert_eq!(class_totals(&report, "text_contains").passed, 1);
    assert_eq!(class_totals(&report, "text_equals").failed, 1);
    assert_eq!(class_totals(&report, "text_matches").malformed, 1);
    assert_eq!(class_totals(&report, "judge").deferred, 1);
    assert_eq!(report.suite, "regression");
    assert_eq!(report.run_id, "run-1");
}

#[test]
fn conversations_matched_counts_each_conversation_once() {
    let suite = suite_with(vec![
        case_named("alpha", vec![contains("hello")]),
        case_fanout(vec![contains("hello")]),
    ]);
    let conversations = vec![file("alpha.yaml", conv(&[], "hello world")), file("beta.yaml", conv(&[], "nope"))];
    let report = run(&suite, &conversations);
    assert_eq!(report.totals.conversations_matched, 2);
    assert_eq!(report.cases[0].matches.len() + report.cases[1].matches.len(), 3);
}

#[test]
fn per_class_is_listed_in_ascending_class_order() {
    let suite = suite_with(vec![case_named(
        "alpha",
        vec![
            Assertion::TextMatches { pattern: String::from("hello"), flags: None },
            contains("hello"),
            Assertion::Judge { prompt: String::from("anything") },
            Assertion::TextEquals { value: String::from("x") },
        ],
    )]);
    let conversations = vec![file("alpha.yaml", conv(&[], "hello world"))];
    let report = run(&suite, &conversations);
    let classes: Vec<&str> = report.per_class.iter().map(|(c, _)| c.as_str()).collect();
    assert_eq!(classes, vec!["judge", "text_contains", "text_equals", "text_matches"]);
}

#[test]
fn stems_and_file_names_follow_path_components() {
    assert_eq!(stem_of("runs/alpha.yaml"), "alpha");
    assert_eq!(stem_of(".hidden"), ".hidden");
    assert_eq!(stem_of("a/archive.tar.gz"), "archive.tar");
    assert_eq!(stem_of("dir/b/"), "b");
    assert_eq!(stem_of("dir/b/."), "b");
    assert_eq!(stem_of("dir/.."), "");
    assert_eq!(stem_of("/"), "");
    assert_eq!(filename_of("runs//alpha.yaml"), "alpha.yaml");
    assert_eq!(filename_of("name."), "name.");
    assert_eq!(stem_of("name."), "name");
}
