//! Checking one assertion of an evaluation suite against a conversation.
//!
//! Text, tool-call, JSON-path, token and latency families are decided here;
//! the families that need a model or a subprocess are `Deferred` to the
//! orchestrator.
use vstd::prelude::*;

use crate::bash::strings_view;
use crate::conversation::{
    extract_tool_uses, final_assistant_text, final_text, sum_traces, tool_name, tool_use_name,
    tool_uses, trace_total, yaml_subset, yaml_subset_match, yaml_view, ContentBlock, Conversation,
    TraceMeasure, YamlValue, YamlView,
};
use crate::text::{
    byte_len, chars_of, contains_seq, dec, dec_int, find_chars, is_first_occurrence, push_decimal_u128,
    push_decimal_usize, push_decimal_i64, push_str, utf8_len,
};

verus! {

/// What `str::to_lowercase` returns for `s`.
pub uninterp spec fn lowercase(s: Seq<char>) -> Seq<char>;

/// What `format!("{:?}", s)` renders for the string `s`: the quoted,
/// escaped form.
pub uninterp spec fn debug_quoted(s: Seq<char>) -> Seq<char>;

/// The message of the error `regex::Regex::new` reports for `pattern`, or
/// `None` when the pattern compiles.
pub uninterp spec fn regex_error(pattern: Seq<char>) -> Option<Seq<char>>;

/// What `regex::Regex::is_match` answers for the compiled `pattern` on `hay`.
pub uninterp spec fn regex_finds(pattern: Seq<char>, hay: Seq<char>) -> bool;

/// The message of the error `serde_json_path::JsonPath::parse` reports for
/// `path`, or `None` when the path parses.
pub uninterp spec fn json_path_error(path: Seq<char>) -> Option<Seq<char>>;

/// The compact JSON text of the first node `JsonPath::query` selects with
/// `path` in the JSON `document`, or `None` when it selects nothing.
pub uninterp spec fn json_path_first(path: Seq<char>, document: Seq<char>) -> Option<Seq<char>>;

/// Whether `serde_json` parses the two texts to equal values.
pub uninterp spec fn json_equal(a: Seq<char>, b: Seq<char>) -> bool;

/// Calls `str::to_lowercase`; the contract names its result [`lowercase`].
#[verifier::external_body]
fn to_lower(s: &str) -> (r: String)
    ensures
        r@ == lowercase(s@),
{
    s.to_lowercase()
}

/// Renders `s` with `format!("{:?}")`; the contract names the result
/// [`debug_quoted`].
#[verifier::external_body]
pub(crate) fn debug_quote(s: &str) -> (r: String)
    ensures
        r@ == debug_quoted(s@),
{
    format!("{s:?}")
}

/// Calls `regex::Regex::new` and keeps the error's message; the contract
/// names it [`regex_error`].
#[verifier::external_body]
pub(crate) fn regex_compile_error(pattern: &str) -> (r: Option<String>)
    ensures
        match regex_error(pattern@) {
            Some(e) => r matches Some(m) && m@ == e,
            None => r is None,
        },
{
    regex::Regex::new(pattern).err().map(|e| e.to_string())
}

/// Calls `regex::Regex::is_match` on the compiled `pattern`; the contract
/// names the answer [`regex_finds`].
#[verifier::external_body]
pub(crate) fn regex_is_match(pattern: &str, hay: &str) -> (r: bool)
    requires
        regex_error(pattern@) is None,
    ensures
        r == regex_finds(pattern@, hay@),
{
    match regex::Regex::new(pattern) {
        Ok(re) => re.is_match(hay),
        Err(_) => false,
    }
}

/// Calls `serde_json_path::JsonPath::parse` and keeps the error's message;
/// the contract names it [`json_path_error`].
#[verifier::external_body]
fn json_path_parse_error(path: &str) -> (r: Option<String>)
    ensures
        match json_path_error(path@) {
            Some(e) => r matches Some(m) && m@ == e,
            None => r is None,
        },
{
    serde_json_path::JsonPath::parse(path).err().map(|e| e.to_string())
}

/// Calls `JsonPath::query` with the parsed `path` on the parsed `document`
/// and renders the first node it selects; the contract names the result
/// [`json_path_first`].
#[verifier::external_body]
fn json_path_first_match(path: &str, document: &str) -> (r: Option<String>)
    requires
        json_path_error(path@) is None,
    ensures
        match json_path_first(path@, document@) {
            Some(v) => r matches Some(m) && m@ == v,
            None => r is None,
        },
{
    match (serde_json_path::JsonPath::parse(path), serde_json::from_str::<serde_json::Value>(document)) {
        (Ok(query), Ok(value)) => query.query(&value).first().map(|node| node.to_string()),
        _ => None,
    }
}

/// Compares the values `serde_json` parses from `a` and `b` with
/// `serde_json::Value`'s `==`; the contract names the answer [`json_equal`].
#[verifier::external_body]
fn json_text_equal(a: &str, b: &str) -> (r: bool)
    ensures
        r == json_equal(a@, b@),
{
    match (serde_json::from_str::<serde_json::Value>(a), serde_json::from_str::<serde_json::Value>(b)) {
        (Ok(x), Ok(y)) => x == y,
        _ => false,
    }
}

/// Comparison operator of the numeric and JSON-path families.
#[derive(Debug, Clone, Copy, PartialEq, Eq, Structural)]
pub enum Op {
    Eq,
    NotEq,
    Lt,
    LtEq,
    Gt,
    GtEq,
}

/// Which token count the `tokens` family reads.
#[derive(Debug, Clone, Copy, PartialEq, Eq, Structural)]
pub enum TokenMetric {
    Input,
    Output,
    Total,
}

/// Interpreter of an inline script assertion.
#[derive(Debug, Clone, Copy, PartialEq, Eq, Structural)]
pub enum ScriptRuntime {
    Python,
    Node,
}

/// Where a script assertion's source comes from.
#[derive(Debug)]
pub enum ScriptBody {
    Contents { contents: String },
    Path { path: String },
}

/// A tool call a `tool` assertion asks an external executor to check.
#[derive(Debug)]
pub struct ToolCallSpec {
    pub tool: String,
    pub with_args: Option<YamlValue>,
}

/// One assertion of an evaluation case.
#[derive(Debug)]
pub enum Assertion {
    Judge { prompt: String },
    Tool { tool_call: ToolCallSpec },
    Script { runtime: ScriptRuntime, script: ScriptBody, pass_env: Vec<String> },
    Program { script: String, pass_env: Vec<String> },
    MustCallTool { tool: String, with_args: Option<YamlValue> },
    MustNotCallTool { tool: String },
    ToolCallCount { tool: Option<String>, op: Op, value: i64 },
    ToolCallOrder { sequence: Vec<String> },
    TextContains { value: String, case_sensitive: Option<bool> },
    TextNotContains { value: String, case_sensitive: Option<bool> },
    TextMatches { pattern: String, flags: Option<String> },
    TextEquals { value: String },
    /// `threshold` is the decimal text of the similarity bar.
    TextSemanticMatch { value: String, threshold: Option<String> },
    /// `value` is the expected value as compact JSON text.
    JsonPath { path: String, op: Op, value: String },
    ResponseField { path: String, exists: bool },
    Tokens { metric: TokenMetric, op: Op, value: i64 },
    LatencyMs { op: Op, value: i64 },
}

/// Verdict of [`Assertion::check`].
#[derive(Debug, Clone, PartialEq, Eq)]
pub enum AssertionOutcome {
    /// The expectation was satisfied.
    Pass,
    /// Checked and not satisfied; `reason` names the expectation and what was observed.
    Fail { reason: String },
    /// A collaborator the assertion needs is not wired.
    Deferred,
    /// The assertion itself is invalid (a pattern or path that does not compile).
    Malformed { reason: String },
    /// The collaborator ran and failed.
    Errored { reason: String },
}

/// The mathematical form of an [`AssertionOutcome`].
pub enum OutcomeView {
    Pass,
    Fail(Seq<char>),
    Deferred,
    Malformed(Seq<char>),
    Errored(Seq<char>),
}

/// The view of an outcome.
pub open spec fn outcome_view(o: AssertionOutcome) -> OutcomeView {
    match o {
        AssertionOutcome::Pass => OutcomeView::Pass,
        AssertionOutcome::Fail { reason } => OutcomeView::Fail(reason@),
        AssertionOutcome::Deferred => OutcomeView::Deferred,
        AssertionOutcome::Malformed { reason } => OutcomeView::Malformed(reason@),
        AssertionOutcome::Errored { reason } => OutcomeView::Errored(reason@),
    }
}

/// Collaborators that the model-backed families need. None is wired here,
/// so those families are deferred.
pub struct EvaluationContext {
    pub engine_wired: bool,
}

impl EvaluationContext {
    /// The context with no collaborators.
    pub fn empty() -> (c: Self)
        ensures
            !c.engine_wired,
    {
        EvaluationContext { engine_wired: false }
    }
}

/// Numeric ranks of JSON number texts, as `serde_json::Value::as_f64`
/// orders them: two texts compare as their ranks do. A text without a rank
/// is not a number.
pub struct NumberRanks {
    pub ranks: Vec<(String, u64)>,
}

/// The ranks as plain values.
pub open spec fn ranks_view(n: NumberRanks) -> Seq<(Seq<char>, u64)> {
    n.ranks@.map_values(|e: (String, u64)| (e.0@, e.1))
}

/// The rank of the first entry for `text`.
pub open spec fn rank_of(ranks: Seq<(Seq<char>, u64)>, text: Seq<char>) -> Option<u64>
    decreases ranks.len(),
{
    if ranks.len() == 0 {
        None
    } else if ranks[0].0 == text {
        Some(ranks[0].1)
    } else {
        rank_of(ranks.drop_first(), text)
    }
}

fn find_rank(n: &NumberRanks, text: &str) -> (r: Option<u64>)
    ensures
        r == rank_of(ranks_view(*n), text@),
{
    let ghost rv = ranks_view(*n);
    let mut i: usize = 0;
    assert(rv.skip(0) =~= rv);
    while i < n.ranks.len()
        invariant
            i <= n.ranks@.len(),
            rv == ranks_view(*n),
            rv.len() == n.ranks@.len(),
            rank_of(rv, text@) == rank_of(rv.skip(i as int), text@),
        decreases n.ranks.len() - i,
    {
        let ghost rest = rv.skip(i as int);
        assert(rest[0] == rv[i as int]);
        if crate::text::str_eq(n.ranks[i].0.as_str(), text) {
            return Some(n.ranks[i].1);
        }
        assert(rest.drop_first() =~= rv.skip(i + 1));
        i += 1;
    }
    None
}

/// Whether `observed op value` holds.
pub open spec fn op_holds(observed: int, op: Op, value: int) -> bool {
    match op {
        Op::Eq => observed == value,
        Op::NotEq => observed != value,
        Op::Lt => observed < value,
        Op::LtEq => observed <= value,
        Op::Gt => observed > value,
        Op::GtEq => observed >= value,
    }
}

/// The symbol of an operator.
pub open spec fn op_text(op: Op) -> Seq<char> {
    match op {
        Op::Eq => "=="@,
        Op::NotEq => "!="@,
        Op::Lt => "<"@,
        Op::LtEq => "<="@,
        Op::Gt => ">"@,
        Op::GtEq => ">="@,
    }
}

/// Compares `observed` with `value`, both taken as mathematical integers.
pub fn compare_i128(observed: i128, op: &Op, value: i64) -> (r: bool)
    ensures
        r == op_holds(observed as int, *op, value as int),
{
    let value = value as i128;
    match op {
        Op::Eq => observed == value,
        Op::NotEq => observed != value,
        Op::Lt => observed < value,
        Op::LtEq => observed <= value,
        Op::Gt => observed > value,
        Op::GtEq => observed >= value,
    }
}

/// The symbol of `op`.
pub fn op_symbol(op: &Op) -> (r: &'static str)
    ensures
        r@ == op_text(*op),
{
    match op {
        Op::Eq => "==",
        Op::NotEq => "!=",
        Op::Lt => "<",
        Op::LtEq => "<=",
        Op::Gt => ">",
        Op::GtEq => ">=",
    }
}

/// How a token metric prints in a reason.
pub open spec fn metric_text(m: TokenMetric) -> Seq<char> {
    match m {
        TokenMetric::Input => "Input"@,
        TokenMetric::Output => "Output"@,
        TokenMetric::Total => "Total"@,
    }
}

/// The trace quantity a token metric reads.
pub open spec fn metric_measure(m: TokenMetric) -> TraceMeasure {
    match m {
        TokenMetric::Input => TraceMeasure::InputTokens,
        TokenMetric::Output => TraceMeasure::OutputTokens,
        TokenMetric::Total => TraceMeasure::TotalTokens,
    }
}

fn metric_name(m: &TokenMetric) -> (r: &'static str)
    ensures
        r@ == metric_text(*m),
{
    match m {
        TokenMetric::Input => "Input",
        TokenMetric::Output => "Output",
        TokenMetric::Total => "Total",
    }
}

/// `observed`, capped at `i128::MAX`.
pub open spec fn cap_i128(observed: nat) -> int {
    if observed > i128::MAX {
        i128::MAX as int
    } else {
        observed as int
    }
}

fn to_i128_saturating(n: u128) -> (r: i128)
    ensures
        r == cap_i128(n as nat),
{
    if n > i128::MAX as u128 {
        i128::MAX
    } else {
        n as i128
    }
}

/// Debug rendering of a list of strings: `["a", "b"]`.
pub open spec fn debug_list(items: Seq<Seq<char>>) -> Seq<char> {
    "["@ + debug_items(items) + "]"@
}

/// The quoted items joined by `", "`.
pub open spec fn debug_items(items: Seq<Seq<char>>) -> Seq<char>
    decreases items.len(),
{
    if items.len() == 0 {
        Seq::empty()
    } else if items.len() == 1 {
        debug_quoted(items[0])
    } else {
        debug_items(items.drop_last()) + ", "@ + debug_quoted(items.last())
    }
}

pub(crate) fn push_debug_list(out: &mut String, items: &Vec<String>)
    ensures
        final(out)@ == old(out)@ + debug_list(strings_view(items@)),
{
    let ghost iv = strings_view(items@);
    let ghost start = out@;
    push_str(out, "[");
    let mut i: usize = 0;
    while i < items.len()
        invariant
            i <= items@.len(),
            iv == strings_view(items@),
            iv.len() == items@.len(),
            out@ == start + "["@ + debug_items(iv.take(i as int)),
        decreases items.len() - i,
    {
        proof {
            assert(iv.take(i + 1).drop_last() =~= iv.take(i as int));
            assert(iv.take(i + 1).last() == items@[i as int]@);
        }
        if i > 0 {
            push_str(out, ", ");
        }
        let q = debug_quote(items[i].as_str());
        push_str(out, q.as_str());
        proof {
            if i == 0 {
                assert(iv.take(1).len() == 1);
                assert(iv.take(0).len() == 0);
                assert(out@ =~= start + "["@ + debug_items(iv.take(1)));
            } else {
                assert(out@ =~= start + "["@ + debug_items(iv.take(i + 1)));
            }
        }
        i += 1;
    }
    push_str(out, "]");
    assert(iv.take(iv.len() as int) =~= iv);
    assert(out@ =~= start + debug_list(iv));
}

proof fn lemma_first_unique(h: Seq<char>, n: Seq<char>, i: int, j: int)
    requires
        is_first_occurrence(h, n, i),
        is_first_occurrence(h, n, j),
    ensures
        i == j,
{
    if i < j {
        assert(!crate::text::occurs_at(h, n, i));
    } else if j < i {
        assert(!crate::text::occurs_at(h, n, j));
    }
}

/// The position of the first occurrence of `n` in `h`.
pub open spec fn first_index(h: Seq<char>, n: Seq<char>) -> int {
    choose|i: int| is_first_occurrence(h, n, i)
}

/// Names of the tool calls, in order.
pub open spec fn call_names(calls: Seq<ContentBlock>) -> Seq<Seq<char>> {
    calls.map_values(|b: ContentBlock| tool_name(b))
}

/// Arguments of a tool call.
pub open spec fn call_input(b: ContentBlock) -> YamlView {
    match b {
        ContentBlock::ToolUse { input, .. } => yaml_view(input),
        _ => YamlView::Null,
    }
}

/// Whether the call at `i` is named `tool` and carries arguments that the
/// expected ones are a subset of.
pub open spec fn call_satisfies(calls: Seq<ContentBlock>, i: int, tool: Seq<char>, with_args: Option<YamlView>) -> bool {
    tool_name(calls[i]) == tool && match with_args {
        None => true,
        Some(e) => yaml_subset(e, call_input(calls[i])),
    }
}

/// Number of names equal to `t`.
pub open spec fn count_named(names: Seq<Seq<char>>, t: Seq<char>) -> nat
    decreases names.len(),
{
    if names.len() == 0 {
        0
    } else {
        count_named(names.drop_last(), t) + if names.last() == t { 1nat } else { 0nat }
    }
}

/// How far a greedy scan of `names` gets through `sequence`.
pub open spec fn order_cursor(names: Seq<Seq<char>>, sequence: Seq<Seq<char>>) -> nat
    decreases names.len(),
{
    if names.len() == 0 {
        0
    } else {
        let c = order_cursor(names.drop_last(), sequence);
        if c < sequence.len() && names.last() == sequence[c as int] {
            c + 1
        } else {
            c
        }
    }
}

/// The first index at which `names` holds `t`.
pub open spec fn first_named(names: Seq<Seq<char>>, t: Seq<char>) -> int {
    choose|k: int| 0 <= k < names.len() && names[k] == t && forall|j: int| 0 <= j < k ==> names[j] != t
}

/// Verdict of `text_contains`.
pub open spec fn text_contains_spec(text: Option<Seq<char>>, value: Seq<char>, case_sensitive: bool) -> OutcomeView {
    match text {
        None => OutcomeView::Fail("text_contains: no filled assistant turn present"@),
        Some(h) => {
            let found = if case_sensitive {
                contains_seq(h, value)
            } else {
                contains_seq(lowercase(h), lowercase(value))
            };
            if found {
                OutcomeView::Pass
            } else {
                OutcomeView::Fail(
                    "text_contains: expected substring "@ + debug_quoted(value) + " not found in "@
                        + dec(utf8_len(h)) + "-byte response"@,
                )
            }
        },
    }
}

/// Verdict of `text_not_contains`.
pub open spec fn text_not_contains_spec(text: Option<Seq<char>>, value: Seq<char>, case_sensitive: bool) -> OutcomeView {
    match text {
        None => OutcomeView::Fail("text_not_contains: no filled assistant turn present"@),
        Some(h) => {
            let hh = if case_sensitive { h } else { lowercase(h) };
            let vv = if case_sensitive { value } else { lowercase(value) };
            if !contains_seq(hh, vv) {
                OutcomeView::Pass
            } else {
                OutcomeView::Fail(
                    "text_not_contains: forbidden substring "@ + debug_quoted(value) + " found at byte offset "@
                        + dec(utf8_len(hh.take(first_index(hh, vv)))),
                )
            }
        },
    }
}

/// The pattern `text_matches` compiles: the flags, when there are any, as
/// an inline group in front.
pub open spec fn effective_pattern(pattern: Seq<char>, flags: Option<Seq<char>>) -> Seq<char> {
    match flags {
        Some(f) => if f.len() > 0 { "(?"@ + f + ")"@ + pattern } else { pattern },
        None => pattern,
    }
}

/// Verdict of `text_matches`.
pub open spec fn text_matches_spec(text: Option<Seq<char>>, pattern: Seq<char>, flags: Option<Seq<char>>) -> OutcomeView {
    let p = effective_pattern(pattern, flags);
    match regex_error(p) {
        Some(e) => OutcomeView::Malformed("text_matches: regex compile error: "@ + e),
        None => match text {
            None => OutcomeView::Fail("text_matches: no filled assistant turn present"@),
            Some(h) => if regex_finds(p, h) {
                OutcomeView::Pass
            } else {
                OutcomeView::Fail(
                    "text_matches: pattern "@ + debug_quoted(pattern) + " did not match "@ + dec(utf8_len(h))
                        + "-byte response"@,
                )
            },
        },
    }
}

/// Verdict of `text_equals`.
pub open spec fn text_equals_spec(text: Option<Seq<char>>, value: Seq<char>) -> OutcomeView {
    match text {
        None => OutcomeView::Fail("text_equals: no filled assistant turn present"@),
        Some(a) => if a == value {
            OutcomeView::Pass
        } else {
            OutcomeView::Fail(
                "text_equals: expected "@ + debug_quoted(value) + " ("@ + dec(utf8_len(value)) + " bytes) but got "@
                    + debug_quoted(a) + " ("@ + dec(utf8_len(a)) + " bytes)"@,
            )
        },
    }
}

/// Verdict of `must_call_tool` on the calls of a session.
pub open spec fn must_call_tool_spec(calls: Seq<ContentBlock>, tool: Seq<char>, with_args: Option<YamlView>) -> OutcomeView {
    if exists|i: int| 0 <= i < calls.len() && call_satisfies(calls, i, tool, with_args) {
        OutcomeView::Pass
    } else if exists|i: int| 0 <= i < calls.len() && tool_name(calls[i]) == tool {
        OutcomeView::Fail(
            "must_call_tool: tool "@ + debug_quoted(tool)
                + " invoked but no call matched the expected `with_args` subset"@,
        )
    } else {
        OutcomeView::Fail(
            "must_call_tool: tool "@ + debug_quoted(tool) + " was not invoked (observed tool calls: "@
                + debug_list(call_names(calls)) + ")"@,
        )
    }
}

/// Verdict of `must_not_call_tool`.
pub open spec fn must_not_call_tool_spec(calls: Seq<ContentBlock>, tool: Seq<char>) -> OutcomeView {
    let names = call_names(calls);
    if exists|k: int| 0 <= k < names.len() && names[k] == tool {
        OutcomeView::Fail(
            "must_not_call_tool: forbidden tool "@ + debug_quoted(tool) + " invoked first at call index "@
                + dec(first_named(names, tool) as nat),
        )
    } else {
        OutcomeView::Pass
    }
}

/// Verdict of `tool_call_count`.
pub open spec fn tool_call_count_spec(calls: Seq<ContentBlock>, tool: Option<Seq<char>>, op: Op, value: i64) -> OutcomeView {
    let count = match tool {
        None => calls.len(),
        Some(t) => count_named(call_names(calls), t),
    };
    if op_holds(count as int, op, value as int) {
        OutcomeView::Pass
    } else {
        OutcomeView::Fail(
            "tool_call_count: expected count "@ + op_text(op) + " "@ + dec_int(value as int) + ", observed "@
                + dec(count) + " (tool: "@ + match tool {
                Some(t) => t,
                None => "any"@,
            } + ")"@,
        )
    }
}

/// Verdict of `tool_call_order`.
pub open spec fn tool_call_order_spec(calls: Seq<ContentBlock>, sequence: Seq<Seq<char>>) -> OutcomeView {
    let names = call_names(calls);
    let c = order_cursor(names, sequence);
    if c >= sequence.len() {
        OutcomeView::Pass
    } else {
        OutcomeView::Fail(
            "tool_call_order: expected subsequence "@ + debug_list(sequence) + ", stalled at "@
                + debug_quoted(sequence[c as int]) + " (observed "@ + debug_list(names) + ")"@,
        )
    }
}

/// The reason a path that does not parse is reported with.
pub open spec fn path_error_reason(path: Seq<char>, e: Seq<char>) -> Seq<char> {
    "json_path: parse error on path "@ + debug_quoted(path) + ": "@ + e
}

/// Whether an ordered comparison of two JSON texts is decided, and how.
pub open spec fn ordered_decision(ranks: Seq<(Seq<char>, u64)>, observed: Seq<char>, op: Op, expected: Seq<char>) -> Option<bool> {
    match (rank_of(ranks, observed), rank_of(ranks, expected)) {
        (Some(a), Some(b)) => Some(op_holds(a as int, op, b as int)),
        _ => None,
    }
}

/// Verdict of `json_path`.
pub open spec fn json_path_spec(
    document: Seq<char>,
    ranks: Seq<(Seq<char>, u64)>,
    path: Seq<char>,
    op: Op,
    expected: Seq<char>,
) -> OutcomeView {
    match json_path_error(path) {
        Some(e) => OutcomeView::Malformed(path_error_reason(path, e)),
        None => match json_path_first(path, document) {
            None => OutcomeView::Fail("json_path: "@ + path + ": no value matched the path"@),
            Some(observed) => {
                let decided = match op {
                    Op::Eq => Some(json_equal(observed, expected)),
                    Op::NotEq => Some(!json_equal(observed, expected)),
                    _ => ordered_decision(ranks, observed, op, expected),
                };
                match decided {
                    Some(true) => OutcomeView::Pass,
                    Some(false) => OutcomeView::Fail(
                        "json_path: "@ + path + ": expected "@ + op_text(op) + " "@ + expected + ", observed "@
                            + observed,
                    ),
                    None => OutcomeView::Fail(
                        "json_path: "@ + path + ": ordered op "@ + op_text(op)
                            + " requires numeric values, observed "@ + observed,
                    ),
                }
            },
        },
    }
}

/// Verdict of `response_field`.
pub open spec fn response_field_spec(document: Seq<char>, path: Seq<char>, exists: bool) -> OutcomeView {
    match json_path_error(path) {
        Some(e) => OutcomeView::Malformed(path_error_reason(path, e)),
        None => {
            let found = json_path_first(path, document) is Some;
            if exists == found {
                OutcomeView::Pass
            } else if exists {
                OutcomeView::Fail("response_field: "@ + path + ": expected value present, found none"@)
            } else {
                OutcomeView::Fail("response_field: "@ + path + ": expected no value, but path matched"@)
            }
        },
    }
}

/// Verdict of `tokens`.
pub open spec fn tokens_spec(session: Seq<crate::conversation::Message>, metric: TokenMetric, op: Op, value: i64) -> OutcomeView {
    let observed = trace_total(session, metric_measure(metric));
    if op_holds(cap_i128(observed), op, value as int) {
        OutcomeView::Pass
    } else {
        OutcomeView::Fail(
            "tokens: expected "@ + op_text(op) + " "@ + dec_int(value as int) + " ("@ + metric_text(metric)
                + "), observed "@ + dec(observed),
        )
    }
}

/// Verdict of `latency_ms`.
pub open spec fn latency_spec(session: Seq<crate::conversation::Message>, op: Op, value: i64) -> OutcomeView {
    let observed = trace_total(session, TraceMeasure::Latency);
    if op_holds(cap_i128(observed), op, value as int) {
        OutcomeView::Pass
    } else {
        OutcomeView::Fail(
            "latency_ms: expected "@ + op_text(op) + " "@ + dec_int(value as int) + ", observed "@ + dec(observed),
        )
    }
}

/// The optional YAML value as a view.
pub open spec fn opt_yaml_view(o: Option<YamlValue>) -> Option<YamlView> {
    match o {
        Some(v) => Some(yaml_view(v)),
        None => None,
    }
}

/// The optional string as a view.
pub open spec fn opt_string_view(o: Option<String>) -> Option<Seq<char>> {
    match o {
        Some(s) => Some(s@),
        None => None,
    }
}

/// The verdict of `a` on a conversation whose session is `session`, whose
/// JSON rendering is `document`, with `ranks` ordering its numbers.
pub open spec fn check_spec(
    a: Assertion,
    session: Seq<crate::conversation::Message>,
    document: Seq<char>,
    ranks: Seq<(Seq<char>, u64)>,
) -> OutcomeView {
    let text = final_text(session);
    let calls = tool_uses(session);
    match a {
        Assertion::Judge { .. } | Assertion::Tool { .. } | Assertion::Script { .. } | Assertion::Program {
            ..
        } | Assertion::TextSemanticMatch { .. } => OutcomeView::Deferred,
        Assertion::TextContains { value, case_sensitive } => text_contains_spec(
            text,
            value@,
            match case_sensitive { Some(b) => b, None => true },
        ),
        Assertion::TextNotContains { value, case_sensitive } => text_not_contains_spec(
            text,
            value@,
            match case_sensitive { Some(b) => b, None => true },
        ),
        Assertion::TextMatches { pattern, flags } => text_matches_spec(text, pattern@, opt_string_view(flags)),
        Assertion::TextEquals { value } => text_equals_spec(text, value@),
        Assertion::MustCallTool { tool, with_args } => must_call_tool_spec(calls, tool@, opt_yaml_view(with_args)),
        Assertion::MustNotCallTool { tool } => must_not_call_tool_spec(calls, tool@),
        Assertion::ToolCallCount { tool, op, value } => tool_call_count_spec(calls, opt_string_view(tool), op, value),
        Assertion::ToolCallOrder { sequence } => tool_call_order_spec(calls, strings_view(sequence@)),
        Assertion::JsonPath { path, op, value } => json_path_spec(document, ranks, path@, op, value@),
        Assertion::ResponseField { path, exists } => response_field_spec(document, path@, exists),
        Assertion::Tokens { metric, op, value } => tokens_spec(session, metric, op, value),
        Assertion::LatencyMs { op, value } => latency_spec(session, op, value),
    }
}

fn fail(reason: String) -> (r: AssertionOutcome)
    ensures
        outcome_view(r) == OutcomeView::Fail(reason@),
{
    AssertionOutcome::Fail { reason }
}

fn text_of(s: &str) -> (r: String)
    ensures
        r@ == s@,
{
    s.to_owned()
}

/// Verdict of `text_contains` (see [`text_contains_spec`]).
pub fn check_text_contains(conversation: &Conversation, value: &str, case_sensitive: bool) -> (r: AssertionOutcome)
    ensures
        outcome_view(r) == text_contains_spec(final_text(conversation.session@), value@, case_sensitive),
{
    let haystack = match final_assistant_text(conversation) {
        Some(h) => h,
        None => return fail(text_of("text_contains: no filled assistant turn present")),
    };
    let found = if case_sensitive {
        let h = chars_of(haystack.as_str());
        let v = chars_of(value);
        find_chars(h.as_slice(), v.as_slice()).is_some()
    } else {
        let lh = to_lower(haystack.as_str());
        let lv = to_lower(value);
        let h = chars_of(lh.as_str());
        let v = chars_of(lv.as_str());
        find_chars(h.as_slice(), v.as_slice()).is_some()
    };
    if found {
        AssertionOutcome::Pass
    } else {
        let mut reason = String::new();
        push_str(&mut reason, "text_contains: expected substring ");
        let q = debug_quote(value);
        push_str(&mut reason, q.as_str());
        push_str(&mut reason, " not found in ");
        push_decimal_usize(&mut reason, byte_len(haystack.as_str()));
        push_str(&mut reason, "-byte response");
        fail(reason)
    }
}

/// Verdict of `text_not_contains` (see [`text_not_contains_spec`]).
pub fn check_text_not_contains(conversation: &Conversation, value: &str, case_sensitive: bool) -> (r: AssertionOutcome)
    ensures
        outcome_view(r) == text_not_contains_spec(final_text(conversation.session@), value@, case_sensitive),
{
    let haystack = match final_assistant_text(conversation) {
        Some(h) => h,
        None => return fail(text_of("text_not_contains: no filled assistant turn present")),
    };
    let (hh, vv) = if case_sensitive {
        (text_of(haystack.as_str()), text_of(value))
    } else {
        (to_lower(haystack.as_str()), to_lower(value))
    };
    let h = chars_of(hh.as_str());
    let v = chars_of(vv.as_str());
    match find_chars(h.as_slice(), v.as_slice()) {
        None => AssertionOutcome::Pass,
        Some(at) => {
            proof {
                lemma_first_unique(h@, v@, at as int, first_index(h@, v@));
            }
            let prefix = crate::text::string_of(&h.as_slice()[0..at]);
            assert(prefix@ =~= h@.take(at as int));
            let mut reason = String::new();
            push_str(&mut reason, "text_not_contains: forbidden substring ");
            let q = debug_quote(value);
            push_str(&mut reason, q.as_str());
            push_str(&mut reason, " found at byte offset ");
            push_decimal_usize(&mut reason, byte_len(prefix.as_str()));
            fail(reason)
        },
    }
}

/// Verdict of `text_matches` (see [`text_matches_spec`]).
pub fn check_text_matches(conversation: &Conversation, pattern: &str, flags: Option<&str>) -> (r: AssertionOutcome)
    ensures
        outcome_view(r) == text_matches_spec(
            final_text(conversation.session@),
            pattern@,
            match flags { Some(f) => Some(f@), None => None },
        ),
{
    let mut p = String::new();
    match flags {
        Some(f) => {
            if byte_len(f) > 0 {
                proof {
                    if f@.len() == 0 {
                        assert(utf8_len(f@) == 0);
                    }
                }
                push_str(&mut p, "(?");
                push_str(&mut p, f);
                push_str(&mut p, ")");
            } else {
                proof {
                    crate::text::lemma_utf8_len_encode(f@);
                    if f@.len() > 0 {
                        crate::text::lemma_utf8_len_positive(f@);
                    }
                }
            }
        },
        None => {},
    }
    push_str(&mut p, pattern);
    match regex_compile_error(p.as_str()) {
        Some(e) => {
            let mut reason = String::new();
            push_str(&mut reason, "text_matches: regex compile error: ");
            push_str(&mut reason, e.as_str());
            return AssertionOutcome::Malformed { reason };
        },
        None => {},
    }
    let haystack = match final_assistant_text(conversation) {
        Some(h) => h,
        None => return fail(text_of("text_matches: no filled assistant turn present")),
    };
    if regex_is_match(p.as_str(), haystack.as_str()) {
        AssertionOutcome::Pass
    } else {
        let mut reason = String::new();
        push_str(&mut reason, "text_matches: pattern ");
        let q = debug_quote(pattern);
        push_str(&mut reason, q.as_str());
        push_str(&mut reason, " did not match ");
        push_decimal_usize(&mut reason, byte_len(haystack.as_str()));
        push_str(&mut reason, "-byte response");
        fail(reason)
    }
}

/// Verdict of `text_equals` (see [`text_equals_spec`]).
pub fn check_text_equals(conversation: &Conversation, value: &str) -> (r: AssertionOutcome)
    ensures
        outcome_view(r) == text_equals_spec(final_text(conversation.session@), value@),
{
    let actual = match final_assistant_text(conversation) {
        Some(a) => a,
        None => return fail(text_of("text_equals: no filled assistant turn present")),
    };
    if crate::text::str_eq(actual.as_str(), value) {
        AssertionOutcome::Pass
    } else {
        let mut reason = String::new();
        push_str(&mut reason, "text_equals: expected ");
        let qv = debug_quote(value);
        push_str(&mut reason, qv.as_str());
        push_str(&mut reason, " (");
        push_decimal_usize(&mut reason, byte_len(value));
        push_str(&mut reason, " bytes) but got ");
        let qa = debug_quote(actual.as_str());
        push_str(&mut reason, qa.as_str());
        push_str(&mut reason, " (");
        push_decimal_usize(&mut reason, byte_len(actual.as_str()));
        push_str(&mut reason, " bytes)");
        fail(reason)
    }
}

fn names_of(calls: &Vec<&ContentBlock>) -> (r: Vec<String>)
    requires
        forall|k: int| 0 <= k < calls@.len() ==> *calls@[k] is ToolUse,
    ensures
        strings_view(r@) == calls@.map_values(|b: &ContentBlock| tool_name(*b)),
{
    let mut out: Vec<String> = Vec::new();
    let mut i: usize = 0;
    while i < calls.len()
        invariant
            i <= calls@.len(),
            forall|k: int| 0 <= k < calls@.len() ==> *calls@[k] is ToolUse,
            strings_view(out@) =~= calls@.take(i as int).map_values(|b: &ContentBlock| tool_name(*b)),
        decreases calls.len() - i,
    {
        let ghost before = out@;
        let nm = text_of(tool_use_name(calls[i]));
        assert(nm@ == tool_name(*calls@[i as int]));
        assert(strings_view(before).len() == i);
        out.push(nm);
        proof {
            assert(out@ == before.push(nm));
            let want = calls@.take(i + 1).map_values(|b: &ContentBlock| tool_name(*b));
            assert forall|k: int| 0 <= k < i + 1 implies #[trigger] strings_view(out@)[k] == want[k] by {
                if k < i {
                    assert(out@[k] == before[k]);
                    assert(strings_view(before)[k] == calls@.take(i as int).map_values(|b: &ContentBlock| tool_name(*b))[k]);
                }
            }
            assert(strings_view(out@) =~= want);
        }
        i += 1;
    }
    assert(calls@.take(calls@.len() as int) =~= calls@);
    out
}


proof fn lemma_names_match(calls: Seq<&ContentBlock>, cs: Seq<ContentBlock>)
    requires
        calls.len() == cs.len(),
        forall|k: int| 0 <= k < calls.len() ==> *calls[k] == cs[k],
    ensures
        calls.map_values(|b: &ContentBlock| tool_name(*b)) == call_names(cs),
{
    assert(calls.map_values(|b: &ContentBlock| tool_name(*b)) =~= call_names(cs));
}

/// Verdict of `must_call_tool` (see [`must_call_tool_spec`]).
pub fn check_must_call_tool(conversation: &Conversation, tool: &str, with_args: Option<&YamlValue>) -> (r: AssertionOutcome)
    ensures
        outcome_view(r) == must_call_tool_spec(
            tool_uses(conversation.session@),
            tool@,
            match with_args { Some(e) => Some(yaml_view(*e)), None => None },
        ),
{
    let ghost cs = tool_uses(conversation.session@);
    let ghost wa: Option<YamlView> = match with_args { Some(e) => Some(yaml_view(*e)), None => None };
    let calls = extract_tool_uses(conversation);
    proof {
        crate::conversation::lemma_tool_uses_are_calls(conversation.session@);
    }
    let mut name_matched = false;
    let mut i: usize = 0;
    while i < calls.len()
        invariant
            i <= calls@.len(),
            calls@.len() == cs.len(),
            cs == tool_uses(conversation.session@),
            forall|k: int| 0 <= k < calls@.len() ==> *calls@[k] == cs[k],
            forall|k: int| 0 <= k < cs.len() ==> #[trigger] cs[k] is ToolUse,
            wa == match with_args { Some(e) => Some(yaml_view(*e)), None => None::<YamlView> },
            name_matched == exists|j: int| 0 <= j < i && tool_name(cs[j]) == tool@,
            forall|j: int| 0 <= j < i ==> !call_satisfies(cs, j, tool@, wa),
        decreases calls.len() - i,
    {
        match calls[i] {
            ContentBlock::ToolUse { name, input, .. } => {
                if crate::text::str_eq(name.as_str(), tool) {
                    name_matched = true;
                    match with_args {
                        None => {
                            assert(*calls@[i as int] == cs[i as int]);
                            assert(call_satisfies(cs, i as int, tool@, wa));
                            assert(exists|j: int| 0 <= j < cs.len() && call_satisfies(cs, j, tool@, wa));
                            return AssertionOutcome::Pass;
                        },
                        Some(expected) => {
                            if yaml_subset_match(expected, input) {
                                assert(*calls@[i as int] == cs[i as int]);
                                assert(call_satisfies(cs, i as int, tool@, wa));
                                assert(exists|j: int| 0 <= j < cs.len() && call_satisfies(cs, j, tool@, wa));
                                return AssertionOutcome::Pass;
                            }
                        },
                    }
                }
            },
            _ => {},
        }
        i += 1;
    }
    let mut reason = String::new();
    push_str(&mut reason, "must_call_tool: tool ");
    let q = debug_quote(tool);
    push_str(&mut reason, q.as_str());
    if name_matched {
        push_str(&mut reason, " invoked but no call matched the expected `with_args` subset");
    } else {
        push_str(&mut reason, " was not invoked (observed tool calls: ");
        let names = names_of(&calls);
        proof {
            lemma_names_match(calls@, cs);
        }
        push_debug_list(&mut reason, &names);
        push_str(&mut reason, ")");
    }
    fail(reason)
}

/// Verdict of `must_not_call_tool` (see [`must_not_call_tool_spec`]).
pub fn check_must_not_call_tool(conversation: &Conversation, tool: &str) -> (r: AssertionOutcome)
    ensures
        outcome_view(r) == must_not_call_tool_spec(tool_uses(conversation.session@), tool@),
{
    let ghost cs = tool_uses(conversation.session@);
    let calls = extract_tool_uses(conversation);
    proof {
        crate::conversation::lemma_tool_uses_are_calls(conversation.session@);
    }
    let ghost names = call_names(cs);
    let mut i: usize = 0;
    while i < calls.len()
        invariant
            i <= calls@.len(),
            calls@.len() == cs.len(),
            cs == tool_uses(conversation.session@),
            names == call_names(cs),
            forall|k: int| 0 <= k < calls@.len() ==> *calls@[k] == cs[k],
            forall|k: int| 0 <= k < cs.len() ==> #[trigger] cs[k] is ToolUse,
            forall|j: int| 0 <= j < i ==> names[j] != tool@,
        decreases calls.len() - i,
    {
        assert(*calls@[i as int] == cs[i as int]);
        assert(cs[i as int] is ToolUse);
        assert(names[i as int] == tool_name(cs[i as int]));
        if crate::text::str_eq(tool_use_name(calls[i]), tool) {
            proof {
                assert(names[i as int] == tool@);
                assert(0 <= i < names.len() && names[i as int] == tool@ && forall|j: int| 0 <= j < i ==> names[j] != tool@);
                let k = first_named(names, tool@);
                assert(0 <= k < names.len() && names[k] == tool@ && forall|j: int| 0 <= j < k ==> names[j] != tool@);
                if k < i {
                    assert(names[k] != tool@);
                } else if k > i {
                    assert(names[i as int] != tool@);
                }
                assert(exists|k: int| 0 <= k < names.len() && names[k] == tool@);
            }
            let mut reason = String::new();
            push_str(&mut reason, "must_not_call_tool: forbidden tool ");
            let q = debug_quote(tool);
            push_str(&mut reason, q.as_str());
            push_str(&mut reason, " invoked first at call index ");
            push_decimal_usize(&mut reason, i);
            return fail(reason);
        }
        i += 1;
    }
    AssertionOutcome::Pass
}

/// Verdict of `tool_call_count` (see [`tool_call_count_spec`]).
pub fn check_tool_call_count(conversation: &Conversation, tool: Option<&str>, op: &Op, value: i64) -> (r: AssertionOutcome)
    ensures
        outcome_view(r) == tool_call_count_spec(
            tool_uses(conversation.session@),
            match tool { Some(t) => Some(t@), None => None },
            *op,
            value,
        ),
{
    let ghost cs = tool_uses(conversation.session@);
    let calls = extract_tool_uses(conversation);
    proof {
        crate::conversation::lemma_tool_uses_are_calls(conversation.session@);
    }
    let ghost names = call_names(cs);
    let count: usize = match tool {
        None => calls.len(),
        Some(name) => {
            let mut n: usize = 0;
            let mut i: usize = 0;
            while i < calls.len()
                invariant
                    i <= calls@.len(),
                    calls@.len() == cs.len(),
                    names == call_names(cs),
                    forall|k: int| 0 <= k < calls@.len() ==> *calls@[k] == cs[k],
                    forall|k: int| 0 <= k < cs.len() ==> #[trigger] cs[k] is ToolUse,
                    n == count_named(names.take(i as int), name@),
                    n <= i,
                decreases calls.len() - i,
            {
                proof {
                    assert(names.take(i + 1).drop_last() =~= names.take(i as int));
                    assert(names.take(i + 1).last() == names[i as int]);
                }
                if crate::text::str_eq(tool_use_name(calls[i]), name) {
                    n += 1;
                }
                i += 1;
            }
            assert(names.take(calls@.len() as int) =~= names);
            n
        },
    };
    if compare_i128(count as i128, op, value) {
        AssertionOutcome::Pass
    } else {
        let mut reason = String::new();
        push_str(&mut reason, "tool_call_count: expected count ");
        push_str(&mut reason, op_symbol(op));
        push_str(&mut reason, " ");
        push_decimal_i64(&mut reason, value);
        push_str(&mut reason, ", observed ");
        push_decimal_usize(&mut reason, count);
        push_str(&mut reason, " (tool: ");
        match tool {
            Some(t) => push_str(&mut reason, t),
            None => push_str(&mut reason, "any"),
        }
        push_str(&mut reason, ")");
        fail(reason)
    }
}

/// Verdict of `tool_call_order` (see [`tool_call_order_spec`]).
pub fn check_tool_call_order(conversation: &Conversation, sequence: &Vec<String>) -> (r: AssertionOutcome)
    ensures
        outcome_view(r) == tool_call_order_spec(tool_uses(conversation.session@), strings_view(sequence@)),
{
    let ghost cs = tool_uses(conversation.session@);
    let ghost sv = strings_view(sequence@);
    let calls = extract_tool_uses(conversation);
    proof {
        crate::conversation::lemma_tool_uses_are_calls(conversation.session@);
    }
    let names = names_of(&calls);
    proof {
        lemma_names_match(calls@, cs);
    }
    let ghost nv = call_names(cs);
    assert(strings_view(names@) == nv);
    let mut cursor: usize = 0;
    let mut i: usize = 0;
    while i < names.len()
        invariant
            i <= names@.len(),
            strings_view(names@) == nv,
            nv.len() == names@.len(),
            sv == strings_view(sequence@),
            sv.len() == sequence@.len(),
            cursor == order_cursor(nv.take(i as int), sv),
            cursor <= sequence@.len(),
        decreases names.len() - i,
    {
        proof {
            assert(nv.take(i + 1).drop_last() =~= nv.take(i as int));
            assert(nv.take(i + 1).last() == nv[i as int]);
            assert(nv[i as int] == names@[i as int]@);
        }
        if cursor < sequence.len() {
            assert(sv[cursor as int] == sequence@[cursor as int]@);
            if crate::text::str_eq(names[i].as_str(), sequence[cursor].as_str()) {
                cursor += 1;
            }
        }
        i += 1;
    }
    assert(nv.take(names@.len() as int) =~= nv);
    if cursor >= sequence.len() {
        AssertionOutcome::Pass
    } else {
        let mut reason = String::new();
        push_str(&mut reason, "tool_call_order: expected subsequence ");
        push_debug_list(&mut reason, sequence);
        push_str(&mut reason, ", stalled at ");
        let q = debug_quote(sequence[cursor].as_str());
        push_str(&mut reason, q.as_str());
        push_str(&mut reason, " (observed ");
        push_debug_list(&mut reason, &names);
        push_str(&mut reason, ")");
        fail(reason)
    }
}

fn op_holds_u64(a: u64, op: &Op, b: u64) -> (r: bool)
    ensures
        r == op_holds(a as int, *op, b as int),
{
    match op {
        Op::Eq => a == b,
        Op::NotEq => a != b,
        Op::Lt => a < b,
        Op::LtEq => a <= b,
        Op::Gt => a > b,
        Op::GtEq => a >= b,
    }
}

fn path_error_outcome(path: &str, e: &str) -> (r: AssertionOutcome)
    ensures
        outcome_view(r) == OutcomeView::Malformed(path_error_reason(path@, e@)),
{
    let mut reason = String::new();
    push_str(&mut reason, "json_path: parse error on path ");
    let q = debug_quote(path);
    push_str(&mut reason, q.as_str());
    push_str(&mut reason, ": ");
    push_str(&mut reason, e);
    AssertionOutcome::Malformed { reason }
}

/// Verdict of `json_path` (see [`json_path_spec`]); `document` is the
/// conversation rendered as JSON.
pub fn check_json_path(document: &str, numbers: &NumberRanks, path: &str, op: &Op, value: &str) -> (r: AssertionOutcome)
    ensures
        outcome_view(r) == json_path_spec(document@, ranks_view(*numbers), path@, *op, value@),
{
    match json_path_parse_error(path) {
        Some(e) => return path_error_outcome(path, e.as_str()),
        None => {},
    }
    let observed = match json_path_first_match(path, document) {
        Some(o) => o,
        None => {
            let mut reason = String::new();
            push_str(&mut reason, "json_path: ");
            push_str(&mut reason, path);
            push_str(&mut reason, ": no value matched the path");
            return fail(reason);
        },
    };
    let decided: Option<bool> = match op {
        Op::Eq => Some(json_text_equal(observed.as_str(), value)),
        Op::NotEq => Some(!json_text_equal(observed.as_str(), value)),
        _ => match (find_rank(numbers, observed.as_str()), find_rank(numbers, value)) {
            (Some(a), Some(b)) => Some(op_holds_u64(a, op, b)),
            _ => None,
        },
    };
    let mut reason = String::new();
    push_str(&mut reason, "json_path: ");
    push_str(&mut reason, path);
    match decided {
        Some(true) => AssertionOutcome::Pass,
        Some(false) => {
            push_str(&mut reason, ": expected ");
            push_str(&mut reason, op_symbol(op));
            push_str(&mut reason, " ");
            push_str(&mut reason, value);
            push_str(&mut reason, ", observed ");
            push_str(&mut reason, observed.as_str());
            fail(reason)
        },
        None => {
            push_str(&mut reason, ": ordered op ");
            push_str(&mut reason, op_symbol(op));
            push_str(&mut reason, " requires numeric values, observed ");
            push_str(&mut reason, observed.as_str());
            fail(reason)
        },
    }
}

/// Verdict of `response_field` (see [`response_field_spec`]).
pub fn check_response_field(document: &str, path: &str, exists: bool) -> (r: AssertionOutcome)
    ensures
        outcome_view(r) == response_field_spec(document@, path@, exists),
{
    match json_path_parse_error(path) {
        Some(e) => return path_error_outcome(path, e.as_str()),
        None => {},
    }
    let found = json_path_first_match(path, document).is_some();
    if exists == found {
        AssertionOutcome::Pass
    } else {
        let mut reason = String::new();
        push_str(&mut reason, "response_field: ");
        push_str(&mut reason, path);
        if exists {
            push_str(&mut reason, ": expected value present, found none");
        } else {
            push_str(&mut reason, ": expected no value, but path matched");
        }
        fail(reason)
    }
}

/// Verdict of `tokens` (see [`tokens_spec`]).
pub fn check_tokens(conversation: &Conversation, metric: &TokenMetric, op: &Op, value: i64) -> (r: AssertionOutcome)
    ensures
        outcome_view(r) == tokens_spec(conversation.session@, *metric, *op, value),
{
    let measure = match metric {
        TokenMetric::Input => TraceMeasure::InputTokens,
        TokenMetric::Output => TraceMeasure::OutputTokens,
        TokenMetric::Total => TraceMeasure::TotalTokens,
    };
    let observed = sum_traces(conversation, measure);
    if compare_i128(to_i128_saturating(observed), op, value) {
        AssertionOutcome::Pass
    } else {
        let mut reason = String::new();
        push_str(&mut reason, "tokens: expected ");
        push_str(&mut reason, op_symbol(op));
        push_str(&mut reason, " ");
        push_decimal_i64(&mut reason, value);
        push_str(&mut reason, " (");
        push_str(&mut reason, metric_name(metric));
        push_str(&mut reason, "), observed ");
        push_decimal_u128(&mut reason, observed);
        fail(reason)
    }
}

/// Verdict of `latency_ms` (see [`latency_spec`]).
pub fn check_latency_ms(conversation: &Conversation, op: &Op, value: i64) -> (r: AssertionOutcome)
    ensures
        outcome_view(r) == latency_spec(conversation.session@, *op, value),
{
    let observed = sum_traces(conversation, TraceMeasure::Latency);
    if compare_i128(to_i128_saturating(observed), op, value) {
        AssertionOutcome::Pass
    } else {
        let mut reason = String::new();
        push_str(&mut reason, "latency_ms: expected ");
        push_str(&mut reason, op_symbol(op));
        push_str(&mut reason, " ");
        push_decimal_i64(&mut reason, value);
        push_str(&mut reason, ", observed ");
        push_decimal_u128(&mut reason, observed);
        fail(reason)
    }
}

impl Assertion {
    /// Checks this assertion against `conversation`, whose JSON rendering is
    /// `document` and whose numbers `numbers` ranks. The families that need
    /// a model or a subprocess are deferred; every other family is decided
    /// as [`check_spec`] states.
    pub fn check(
        &self,
        conversation: &Conversation,
        document: &str,
        numbers: &NumberRanks,
        ctx: &EvaluationContext,
    ) -> (r: AssertionOutcome)
        ensures
            outcome_view(r) == check_spec(*self, conversation.session@, document@, ranks_view(*numbers)),
    {
        match self {
            Assertion::Judge { .. } | Assertion::Tool { .. } | Assertion::Script { .. }
            | Assertion::Program { .. } | Assertion::TextSemanticMatch { .. } => AssertionOutcome::Deferred,
            Assertion::TextContains { value, case_sensitive } => {
                let cs = match case_sensitive { Some(b) => *b, None => true };
                check_text_contains(conversation, value.as_str(), cs)
            },
            Assertion::TextNotContains { value, case_sensitive } => {
                let cs = match case_sensitive { Some(b) => *b, None => true };
                check_text_not_contains(conversation, value.as_str(), cs)
            },
            Assertion::TextMatches { pattern, flags } => {
                let f: Option<&str> = match flags { Some(f) => Some(f.as_str()), None => None };
                check_text_matches(conversation, pattern.as_str(), f)
            },
            Assertion::TextEquals { value } => check_text_equals(conversation, value.as_str()),
            Assertion::MustCallTool { tool, with_args } => {
                let w: Option<&YamlValue> = match with_args { Some(v) => Some(v), None => None };
                check_must_call_tool(conversation, tool.as_str(), w)
            },
            Assertion::MustNotCallTool { tool } => check_must_not_call_tool(conversation, tool.as_str()),
            Assertion::ToolCallCount { tool, op, value } => {
                let t: Option<&str> = match tool { Some(t) => Some(t.as_str()), None => None };
                check_tool_call_count(conversation, t, op, *value)
            },
            Assertion::ToolCallOrder { sequence } => check_tool_call_order(conversation, sequence),
            Assertion::JsonPath { path, op, value } => check_json_path(
                document,
                numbers,
                path.as_str(),
                op,
                value.as_str(),
            ),
            Assertion::ResponseField { path, exists } => check_response_field(document, path.as_str(), *exists),
            Assertion::Tokens { metric, op, value } => check_tokens(conversation, metric, op, *value),
            Assertion::LatencyMs { op, value } => check_latency_ms(conversation, op, *value),
        }
    }
}

/// Counting calls named `t` ignores every other call: adding a call (or
/// any block) not named `t` leaves the verdict of a `tool_call_count`
/// assertion on `t` unchanged.
pub proof fn lemma_count_ignores_other_tools(
    calls: Seq<ContentBlock>,
    extra: ContentBlock,
    t: Seq<char>,
    op: Op,
    value: i64,
)
    requires
        tool_name(extra) != t,
    ensures
        tool_call_count_spec(calls.push(extra), Some(t), op, value) == tool_call_count_spec(calls, Some(t), op, value),
{
    assert(call_names(calls.push(extra)) =~= call_names(calls).push(tool_name(extra)));
    assert(call_names(calls.push(extra)).drop_last() =~= call_names(calls));
}

/// Adding a call named `t` raises the count of calls named `t` by one.
pub proof fn lemma_count_sees_named_tool(calls: Seq<ContentBlock>, extra: ContentBlock, t: Seq<char>)
    requires
        tool_name(extra) == t,
    ensures
        count_named(call_names(calls.push(extra)), t) == count_named(call_names(calls), t) + 1,
{
    assert(call_names(calls.push(extra)) =~= call_names(calls).push(tool_name(extra)));
    assert(call_names(calls.push(extra)).drop_last() =~= call_names(calls));
}

/// The calls named `t` are never more than all calls, and a session
/// whose calls all bear other names has none named `t`.
pub proof fn lemma_named_count_bounds(calls: Seq<ContentBlock>, t: Seq<char>)
    ensures
        count_named(call_names(calls), t) <= calls.len(),
        (forall|i: int| 0 <= i < calls.len() ==> tool_name(#[trigger] calls[i]) != t) ==> count_named(
            call_names(calls),
            t,
        ) == 0,
    decreases calls.len(),
{
    if calls.len() > 0 {
        let rest = calls.drop_last();
        assert(calls =~= rest.push(calls.last()));
        lemma_named_count_bounds(rest, t);
        assert(call_names(rest.push(calls.last())).drop_last() =~= call_names(rest));
        assert(call_names(calls).last() == tool_name(calls.last()));
        assert forall|i: int| 0 <= i < rest.len() implies rest[i] == calls[i] by {}
    }
}

} // verus!
