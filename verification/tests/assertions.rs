use ailly::assertions::{
    Assertion, AssertionOutcome, EvaluationContext, NumberRanks, Op, ScriptBody, ScriptRuntime, TokenMetric, ToolCallSpec,
};
use ailly::conversation::{BindingMap, Content, ContentBlock, Conversation, Message, Meta, Role, TokenCounts, Trace, YamlValue};

const NO_FILLED_ASSISTANT: &str = "no filled assistant turn present";

fn conversation_with(session: Vec<Message>) -> Conversation {
    Conversation {
        meta: Meta {
            model: String::from("noop"),
            debug: false,
            assembly: None,
            binding: BindingMap::new(),
        },
        session,
    }
}

fn message(role: Role, body: Option<Content>, trace: Option<Trace>) -> Message {
    Message { role, body, cache: false, trace }
}

fn user_text(text: &str) -> Message {
    message(Role::User, Some(Content::Text(String::from(text))), None)
}

fn assistant_text(text: &str) -> Message {
    message(Role::Assistant, Some(Content::Text(String::from(text))), None)
}

fn assistant_blocks(blocks: Vec<ContentBlock>) -> Message {
    message(Role::Assistant, Some(Content::Blocks(blocks)), None)
}

fn assistant_blank() -> Message {
    message(Role::Assistant, None, None)
}

fn tool_use(name: &str) -> ContentBlock {
    ContentBlock::ToolUse {
        id: String::from("tool_1"),
        name: String::from(name),
        input: YamlValue::Null,
    }
}

fn tool_use_with_input(name: &str, input: YamlValue) -> ContentBlock {
    ContentBlock::ToolUse {
        id: String::from("tool_x"),
        name: String::from(name),
        input,
    }
}

fn s(text: &str) -> YamlValue {
    YamlValue::Str(String::from(text))
}

fn mapping(entries: Vec<(&str, YamlValue)>) -> YamlValue {
    YamlValue::Mapping(entries.into_iter().map(|(k, v)| (s(k), v)).collect())
}

fn check(assertion: &Assertion, conv: &Conversation) -> AssertionOutcome {
    check_doc(assertion, conv, "{}")
}

fn check_doc(assertion: &Assertion, conv: &Conversation, document: &str) -> AssertionOutcome {
    assertion.check(conv, document, &NumberRanks { ranks: Vec::new() }, &EvaluationContext::empty())
}

fn fail_reason(outcome: AssertionOutcome) -> String {
    match outcome {
        AssertionOutcome::Fail { reason } => reason,
        other => panic!("expected Fail, got {other:?}"),
    }
}

#[test]
fn text_contains_case_insensitive_matches_uppercase_substring() {
    let conv = conversation_with(vec![assistant_text("Policy Number Required.")]);
    let assertion = Assertion::TextContains {
        value: String::from("policy number"),
        case_sensitive: Some(false),
    };
    assert_eq!(check(&assertion, &conv), AssertionOutcome::Pass);
}

#[test]
fn text_contains_fails_when_substring_absent_with_named_reason() {
    let conv = conversation_with(vec![assistant_text("approved.")]);
    let assertion = Assertion::TextContains {
        value: String::from("policy"),
        case_sensitive: None,
    };
    let reason = fail_reason(check(&assertion, &conv));
    assert!(reason.contains("policy"), "reason missing needle: {reason}");
    assert!(reason.contains("text_contains"), "reason missing op: {reason}");
}

#[test]
fn text_not_contains_passes_when_substring_absent() {
    let conv = conversation_with(vec![assistant_text("policy.")]);
    let assertion = Assertion::TextNotContains {
        value: String::from("auto-approve"),
        case_sensitive: None,
    };
    assert_eq!(check(&assertion, &conv), AssertionOutcome::Pass);
}

#[test]
fn text_not_contains_fails_when_substring_present_with_first_offset() {
    let conv = conversation_with(vec![assistant_text("zzz auto-approve here.")]);
    let assertion = Assertion::TextNotContains {
        value: String::from("auto-approve"),
        case_sensitive: None,
    };
    let reason = fail_reason(check(&assertion, &conv));
    assert!(reason.contains("auto-approve"));
    assert!(reason.contains("offset 4"), "reason missing offset: {reason}");
}

#[test]
fn text_matches_with_invalid_regex_returns_malformed_with_compile_error() {
    let conv = conversation_with(vec![assistant_text("anything")]);
    let assertion = Assertion::TextMatches {
        pattern: String::from("[unclosed"),
        flags: None,
    };
    match check(&assertion, &conv) {
        AssertionOutcome::Malformed { reason } => {
            assert!(reason.contains("text_matches"), "got {reason}");
            assert!(reason.to_lowercase().contains("regex"), "got {reason}");
        }
        other => panic!("expected Malformed, got {other:?}"),
    }
}

#[test]
fn text_matches_with_flags_compiles_into_inline_group() {
    let conv = conversation_with(vec![assistant_text("POLICY number required")]);
    let assertion = Assertion::TextMatches {
        pattern: String::from("polic\\w+"),
        flags: Some(String::from("i")),
    };
    assert_eq!(check(&assertion, &conv), AssertionOutcome::Pass);
}

#[test]
fn text_matches_fails_when_pattern_does_not_match() {
    let conv = conversation_with(vec![assistant_text("nothing relevant")]);
    let assertion = Assertion::TextMatches {
        pattern: String::from("policy"),
        flags: None,
    };
    assert!(matches!(check(&assertion, &conv), AssertionOutcome::Fail { .. }));
}

#[test]
fn text_equals_passes_on_byte_exact_match() {
    let conv = conversation_with(vec![assistant_text("ok")]);
    let assertion = Assertion::TextEquals { value: String::from("ok") };
    assert_eq!(check(&assertion, &conv), AssertionOutcome::Pass);
}

#[test]
fn text_equals_fails_with_diff_summary_when_lengths_match_but_bytes_differ() {
    let conv = conversation_with(vec![assistant_text("ab")]);
    let assertion = Assertion::TextEquals { value: String::from("ba") };
    let reason = fail_reason(check(&assertion, &conv));
    assert!(reason.contains("\"ba\"") && reason.contains("\"ab\""), "got {reason}");
}

#[test]
fn text_assertions_against_unfilled_conversation_fail_with_named_reason() {
    let conv = conversation_with(vec![user_text("ask"), assistant_blank()]);
    let assertion = Assertion::TextContains {
        value: String::from("anything"),
        case_sensitive: None,
    };
    let reason = fail_reason(check(&assertion, &conv));
    assert!(reason.contains(NO_FILLED_ASSISTANT), "got {reason}");
}

#[test]
fn text_assertions_concatenate_text_blocks_with_newline_separator() {
    let conv = conversation_with(vec![assistant_blocks(vec![
        ContentBlock::Text { text: String::from("first") },
        tool_use("lookup"),
        ContentBlock::Text { text: String::from("second") },
    ])]);
    let assertion = Assertion::TextEquals { value: String::from("first\nsecond") };
    assert_eq!(check(&assertion, &conv), AssertionOutcome::Pass);
}

#[test]
fn text_helpers_pick_last_filled_assistant_skipping_blank_tail() {
    let conv = conversation_with(vec![assistant_text("earlier"), assistant_blank()]);
    let assertion = Assertion::TextEquals { value: String::from("earlier") };
    assert_eq!(check(&assertion, &conv), AssertionOutcome::Pass);
}

#[test]
fn must_call_tool_passes_when_named_call_appears() {
    let conv = conversation_with(vec![assistant_blocks(vec![tool_use("lookup_policy")])]);
    let assertion = Assertion::MustCallTool {
        tool: String::from("lookup_policy"),
        with_args: None,
    };
    assert_eq!(check(&assertion, &conv), AssertionOutcome::Pass);
}

#[test]
fn must_call_tool_fails_with_observed_call_names_in_reason() {
    let conv = conversation_with(vec![assistant_blocks(vec![tool_use("auto_approve")])]);
    let assertion = Assertion::MustCallTool {
        tool: String::from("lookup_policy"),
        with_args: None,
    };
    let reason = fail_reason(check(&assertion, &conv));
    assert!(reason.contains("lookup_policy"), "got {reason}");
    assert!(reason.contains("auto_approve"), "got {reason}");
}

#[test]
fn must_call_tool_with_args_subset_match_passes_on_extra_input_fields() {
    let actual_input = mapping(vec![
        ("claim_id", s("C-1")),
        ("ts", YamlValue::Number(String::from("123"))),
        ("ctx", mapping(vec![("region", s("us"))])),
    ]);
    let expected = mapping(vec![("claim_id", s("C-1"))]);
    let conv = conversation_with(vec![assistant_blocks(vec![tool_use_with_input("lookup_policy", actual_input)])]);
    let assertion = Assertion::MustCallTool {
        tool: String::from("lookup_policy"),
        with_args: Some(expected),
    };
    assert_eq!(check(&assertion, &conv), AssertionOutcome::Pass);
}

#[test]
fn must_call_tool_with_args_rejects_value_mismatch() {
    let actual_input = mapping(vec![("claim_id", s("C-2"))]);
    let expected = mapping(vec![("claim_id", s("C-1"))]);
    let conv = conversation_with(vec![assistant_blocks(vec![tool_use_with_input("lookup_policy", actual_input)])]);
    let assertion = Assertion::MustCallTool {
        tool: String::from("lookup_policy"),
        with_args: Some(expected),
    };
    let reason = fail_reason(check(&assertion, &conv));
    assert!(reason.contains("with_args"), "got {reason}");
}

#[test]
fn must_not_call_tool_passes_when_tool_absent() {
    let conv = conversation_with(vec![assistant_blocks(vec![tool_use("lookup_policy")])]);
    let assertion = Assertion::MustNotCallTool { tool: String::from("auto_approve") };
    assert_eq!(check(&assertion, &conv), AssertionOutcome::Pass);
}

#[test]
fn must_not_call_tool_fails_with_first_call_index_in_reason() {
    let conv = conversation_with(vec![assistant_blocks(vec![tool_use("noise"), tool_use("auto_approve")])]);
    let assertion = Assertion::MustNotCallTool { tool: String::from("auto_approve") };
    let reason = fail_reason(check(&assertion, &conv));
    assert!(reason.contains("auto_approve"), "got {reason}");
    assert!(reason.contains("index 1"), "got {reason}");
}

#[test]
fn tool_call_count_with_tool_none_counts_every_call_in_session() {
    let conv = conversation_with(vec![
        assistant_blocks(vec![tool_use("a"), tool_use("b")]),
        assistant_blocks(vec![tool_use("c")]),
    ]);
    let assertion = Assertion::ToolCallCount { tool: None, op: Op::Eq, value: 3 };
    assert_eq!(check(&assertion, &conv), AssertionOutcome::Pass);
}

#[test]
fn tool_call_count_fails_with_count_and_op_in_reason() {
    let conv = conversation_with(vec![assistant_blocks(vec![tool_use("a"), tool_use("a"), tool_use("a")])]);
    let assertion = Assertion::ToolCallCount {
        tool: Some(String::from("a")),
        op: Op::LtEq,
        value: 2,
    };
    let reason = fail_reason(check(&assertion, &conv));
    assert!(reason.contains("<="), "got {reason}");
    assert!(reason.contains("observed 3"), "got {reason}");
    assert!(reason.contains("tool: a"), "got {reason}");
}

#[test]
fn tool_call_order_subsequence_passes_with_intervening_noise_calls() {
    let conv = conversation_with(vec![assistant_blocks(vec![
        tool_use("a"),
        tool_use("noise"),
        tool_use("b"),
        tool_use("more_noise"),
        tool_use("c"),
    ])]);
    let assertion = Assertion::ToolCallOrder {
        sequence: vec![String::from("a"), String::from("b"), String::from("c")],
    };
    assert_eq!(check(&assertion, &conv), AssertionOutcome::Pass);
}

#[test]
fn tool_call_order_fails_when_sequence_appears_reordered() {
    let conv = conversation_with(vec![assistant_blocks(vec![tool_use("b"), tool_use("a")])]);
    let assertion = Assertion::ToolCallOrder {
        sequence: vec![String::from("a"), String::from("b")],
    };
    let reason = fail_reason(check(&assertion, &conv));
    assert!(reason.contains("stalled"), "got {reason}");
    assert!(reason.contains("\"b\""), "got {reason}");
}

const DOC: &str = r#"{"meta":{"model":"noop"},"session":[{"role":"user","body":"hi"},{"role":"assistant","body":"ok"}]}"#;

#[test]
fn json_path_returns_malformed_on_unparseable_path() {
    let conv = conversation_with(vec![assistant_text("ok")]);
    let assertion = Assertion::JsonPath {
        path: String::from("$.[bogus"),
        op: Op::Eq,
        value: String::from("null"),
    };
    match check_doc(&assertion, &conv, DOC) {
        AssertionOutcome::Malformed { reason } => assert!(reason.contains("json_path"), "got {reason}"),
        other => panic!("expected Malformed, got {other:?}"),
    }
}

#[test]
fn json_path_walks_session_array_and_compares_first_result() {
    let conv = conversation_with(vec![user_text("hi"), assistant_text("ok")]);
    let assertion = Assertion::JsonPath {
        path: String::from("$.session[0].role"),
        op: Op::Eq,
        value: String::from("\"user\""),
    };
    assert_eq!(check_doc(&assertion, &conv, DOC), AssertionOutcome::Pass);
}

#[test]
fn json_path_ordered_op_fails_with_type_mismatch_when_value_is_string() {
    let conv = conversation_with(vec![user_text("hi")]);
    let assertion = Assertion::JsonPath {
        path: String::from("$.session[0].role"),
        op: Op::Lt,
        value: String::from("99"),
    };
    let reason = fail_reason(check_doc(&assertion, &conv, DOC));
    assert!(reason.contains("numeric"), "got {reason}");
}

#[test]
fn response_field_exists_true_passes_when_path_yields_results() {
    let conv = conversation_with(vec![user_text("hi")]);
    let assertion = Assertion::ResponseField { path: String::from("$.session[0].role"), exists: true };
    assert_eq!(check_doc(&assertion, &conv, DOC), AssertionOutcome::Pass);
}

#[test]
fn response_field_exists_true_fails_on_unmatched_path() {
    let conv = conversation_with(vec![user_text("hi")]);
    let assertion = Assertion::ResponseField { path: String::from("$.session[99].role"), exists: true };
    assert!(matches!(check_doc(&assertion, &conv, DOC), AssertionOutcome::Fail { .. }));
}

#[test]
fn response_field_exists_false_passes_on_unmatched_path() {
    let conv = conversation_with(vec![user_text("hi")]);
    let assertion = Assertion::ResponseField { path: String::from("$.session[99].role"), exists: false };
    assert_eq!(check_doc(&assertion, &conv, DOC), AssertionOutcome::Pass);
}

#[test]
fn response_field_exists_false_fails_when_path_yields_results() {
    let conv = conversation_with(vec![user_text("hi")]);
    let assertion = Assertion::ResponseField { path: String::from("$.session[0].role"), exists: false };
    assert!(matches!(check_doc(&assertion, &conv, DOC), AssertionOutcome::Fail { .. }));
}

fn trace(input: u64, output: u64, latency_ms: u64) -> Trace {
    Trace {
        tokens: TokenCounts { input, output, cache_hit: None, cache_write: None },
        latency_ms,
    }
}

fn assistant_text_traced(text: &str, trace: Trace) -> Message {
    message(Role::Assistant, Some(Content::Text(String::from(text))), Some(trace))
}

#[test]
fn tokens_total_sums_input_plus_output_across_every_trace() {
    let conv = conversation_with(vec![
        assistant_text_traced("first", trace(100, 50, 0)),
        assistant_text_traced("second", trace(200, 80, 0)),
    ]);
    let assertion = Assertion::Tokens { metric: TokenMetric::Total, op: Op::Eq, value: 430 };
    assert_eq!(check(&assertion, &conv), AssertionOutcome::Pass);
}

#[test]
fn tokens_input_only_excludes_output_tokens() {
    let conv = conversation_with(vec![assistant_text_traced("x", trace(10, 999, 0))]);
    let assertion = Assertion::Tokens { metric: TokenMetric::Input, op: Op::Eq, value: 10 };
    assert_eq!(check(&assertion, &conv), AssertionOutcome::Pass);
}

#[test]
fn tokens_fails_with_observed_count_in_reason() {
    let conv = conversation_with(vec![assistant_text_traced("x", trace(9000, 0, 0))]);
    let assertion = Assertion::Tokens { metric: TokenMetric::Total, op: Op::Lt, value: 100 };
    let reason = fail_reason(check(&assertion, &conv));
    assert!(reason.contains("9000"), "got {reason}");
    assert!(reason.contains('<'), "got {reason}");
}

#[test]
fn latency_ms_zero_passes_eq_zero_on_empty_session() {
    let conv = conversation_with(vec![]);
    let assertion = Assertion::LatencyMs { op: Op::Eq, value: 0 };
    assert_eq!(check(&assertion, &conv), AssertionOutcome::Pass);
}

#[test]
fn latency_ms_fails_with_observed_sum_in_reason() {
    let conv = conversation_with(vec![assistant_text_traced("x", trace(0, 0, 9999))]);
    let assertion = Assertion::LatencyMs { op: Op::LtEq, value: 500 };
    let reason = fail_reason(check(&assertion, &conv));
    assert!(reason.contains("9999"), "got {reason}");
}

#[test]
fn remote_variants_return_deferred_when_context_is_empty() {
    let conv = conversation_with(vec![assistant_text("ok")]);
    let cases = [
        Assertion::Judge { prompt: String::from("any") },
        Assertion::Tool {
            tool_call: ToolCallSpec { tool: String::from("lookup"), with_args: None },
        },
        Assertion::Script {
            runtime: ScriptRuntime::Node,
            script: ScriptBody::Contents { contents: String::from("noop") },
            pass_env: Vec::new(),
        },
        Assertion::Program { script: String::from("ailly-check"), pass_env: Vec::new() },
        Assertion::TextSemanticMatch { value: String::from("ok"), threshold: None },
    ];
    for assertion in &cases {
        assert_eq!(check(assertion, &conv), AssertionOutcome::Deferred, "variant {assertion:?} must defer");
    }
}

#[test]
fn json_path_ordered_op_compares_numbers_by_their_ranks() {
    let conv = conversation_with(vec![]);
    let doc = r#"{"n": 5}"#;
    let ranks = NumberRanks { ranks: vec![(String::from("5"), 1), (String::from("7"), 2), (String::from("3"), 0)] };
    let ctx = EvaluationContext::empty();
    let lt = Assertion::JsonPath { path: String::from("$.n"), op: Op::Lt, value: String::from("7") };
    assert_eq!(lt.check(&conv, doc, &ranks, &ctx), AssertionOutcome::Pass);
    let gt = Assertion::JsonPath { path: String::from("$.n"), op: Op::Gt, value: String::from("7") };
    assert!(matches!(gt.check(&conv, doc, &ranks, &ctx), AssertionOutcome::Fail { .. }));
}

#[test]
fn text_contains_is_case_sensitive_by_default() {
    let conv = conversation_with(vec![assistant_text("Policy")]);
    let assertion = Assertion::TextContains { value: String::from("policy"), case_sensitive: None };
    assert!(matches!(check(&assertion, &conv), AssertionOutcome::Fail { .. }));
}
