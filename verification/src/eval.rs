//! The evaluation orchestrator: pairs each suite case with the conversations
//! it selects, checks every assertion once per pairing, and rolls the
//! verdicts up into a report.
use vstd::prelude::*;

use crate::assertions::{
    check_spec, outcome_view, ranks_view, Assertion, AssertionOutcome, EvaluationContext, NumberRanks,
    OutcomeView,
};
use crate::conversation::{
    binding_view, lookup_binding, yaml_eq, yaml_view, BindingMap, Conversation, Message, TraceMeasure, YamlView,
};
use crate::text::{chars_of, dec, push_decimal_usize, push_str, seq_lt, str_lt, string_of, trim, trim_bounds};

verus! {

/// Index of the last `c` among the first `end` characters of `s`, or -1.
pub open spec fn last_index_of(s: Seq<char>, c: char, end: int) -> int
    decreases end,
{
    if end <= 0 {
        -1
    } else if s[end - 1] == c {
        end - 1
    } else {
        last_index_of(s, c, end - 1)
    }
}

/// [`last_index_of`] is -1 or the index of a `c` before `end`.
pub proof fn lemma_last_index_of_bounds(s: Seq<char>, c: char, end: int)
    ensures
        -1 <= last_index_of(s, c, end) < if end > 0 { end } else { 0 },
        last_index_of(s, c, end) >= 0 ==> s[last_index_of(s, c, end)] == c,
    decreases end,
{
    if end > 0 && s[end - 1] != c {
        lemma_last_index_of_bounds(s, c, end - 1);
    }
}

/// What `Path::file_name` gives for `path` on Unix, where `/` is the only
/// separator: the last component, ignoring empty components (from repeated
/// or trailing `/`) and `.` components, when that component is a name and
/// not `..`; `None` when there is none (an empty path, `/`, `.`).
pub open spec fn path_file_name(path: Seq<char>) -> Option<Seq<char>>
    decreases path.len(),
{
    if path.len() == 0 {
        None
    } else if path.last() == '/' {
        path_file_name(path.drop_last())
    } else {
        let k = last_index_of(path, '/', path.len() as int);
        proof {
            lemma_last_index_of_bounds(path, '/', path.len() as int);
        }
        let piece = path.subrange(k + 1, path.len() as int);
        if piece == seq!['.'] {
            path_file_name(path.subrange(0, k + 1))
        } else if piece == seq!['.', '.'] {
            None
        } else {
            Some(piece)
        }
    }
}

/// The stem of a file name as `Path::file_stem` takes it: the part before
/// the last `.`, or the whole name when it has no `.` or its only `.`
/// leads it.
pub open spec fn name_stem(name: Seq<char>) -> Seq<char> {
    let d = last_index_of(name, '.', name.len() as int);
    if d <= 0 {
        name
    } else {
        name.subrange(0, d)
    }
}

/// What `Path::file_stem` gives for `path` on Unix: the stem of its file
/// name (see [`path_file_name`] and [`name_stem`]).
pub open spec fn path_file_stem(path: Seq<char>) -> Option<Seq<char>> {
    match path_file_name(path) {
        Some(n) => Some(name_stem(n)),
        None => None,
    }
}

proof fn lemma_last_index_of_take(s: Seq<char>, c: char, end: int, m: int)
    requires
        0 <= end <= m <= s.len(),
    ensures
        last_index_of(s.take(m), c, end) == last_index_of(s, c, end),
    decreases end,
{
    if end > 0 {
        lemma_last_index_of_take(s, c, end - 1, m);
    }
}

/// Where the last component before `end` starts: one past the last `/`
/// before `end`, or 0.
fn component_start(v: &Vec<char>, end: usize) -> (st: usize)
    requires
        end <= v@.len(),
    ensures
        st <= end,
        st as int == last_index_of(v@, '/', end as int) + 1,
{
    let mut st = end;
    while st > 0 && v[st - 1] != '/'
        invariant
            st <= end <= v@.len(),
            last_index_of(v@, '/', end as int) == last_index_of(v@, '/', st as int),
        decreases st,
    {
        st -= 1;
    }
    st
}

/// The file name of `path` as `Path::file_name` gives it on Unix (see
/// [`path_file_name`]).
fn file_name_text(path: &str) -> (r: Option<String>)
    ensures
        match path_file_name(path@) {
            Some(s) => r matches Some(t) && t@ == s,
            None => r is None,
        },
{
    let v = chars_of(path);
    let ghost p = path@;
    let mut end: usize = v.len();
    assert(p.take(end as int) =~= p);
    while end > 0
        invariant
            end <= v@.len(),
            v@ == p,
            p == path@,
            path_file_name(p) == path_file_name(p.take(end as int)),
        decreases end,
    {
        let ghost t = p.take(end as int);
        if v[end - 1] == '/' {
            proof {
                assert(t.last() == v@[end - 1]);
                assert(t.drop_last() =~= p.take(end - 1));
            }
            end -= 1;
        } else {
            let st = component_start(&v, end);
            proof {
                lemma_last_index_of_take(p, '/', end as int, end as int);
                lemma_last_index_of_bounds(p, '/', end as int);
                assert(t.last() == v@[end - 1]);
                assert(t.subrange(st as int, end as int) =~= p.subrange(st as int, end as int));
                assert(t.subrange(0, st as int) =~= p.take(st as int));
                assert(t.len() == end);
                assert(last_index_of(t, '/', t.len() as int) == st - 1);
                assert(t.subrange(last_index_of(t, '/', t.len() as int) + 1, t.len() as int) =~= p.subrange(
                    st as int,
                    end as int,
                ));
            }
            let dot = end - st == 1 && v[st] == '.';
            let dots = end - st == 2 && v[st] == '.' && v[st + 1] == '.';
            proof {
                let piece = p.subrange(st as int, end as int);
                if dot {
                    assert(piece =~= seq!['.']);
                } else if end - st == 1 {
                    assert(piece[0] == v@[st as int]);
                    assert(piece != seq!['.']);
                }
                if dots {
                    assert(piece =~= seq!['.', '.']);
                } else if end - st == 2 {
                    assert(piece[0] == v@[st as int] && piece[1] == v@[st + 1]);
                    assert(piece != seq!['.', '.']);
                }
                if end - st != 1 {
                    assert(piece.len() != seq!['.'].len());
                }
                if end - st != 2 {
                    assert(piece.len() != seq!['.', '.'].len());
                }
            }
            if dot {
                end = st;
            } else if dots {
                assert(path_file_name(t) is None);
                return None;
            } else {
                assert(path_file_name(t) == Some(p.subrange(st as int, end as int)));
                let out = string_of(&v.as_slice()[st..end]);
                assert(out@ =~= p.subrange(st as int, end as int));
                return Some(out);
            }
        }
    }
    assert(p.take(0) =~= Seq::<char>::empty());
    None
}

/// The stem of the file name `name`, as `Path::file_stem` cuts it (see
/// [`name_stem`]).
fn name_stem_text(name: String) -> (r: String)
    ensures
        r@ == name_stem(name@),
{
    let v = chars_of(name.as_str());
    let mut d = v.len();
    while d > 0 && v[d - 1] != '.'
        invariant
            d <= v@.len(),
            v@ == name@,
            last_index_of(name@, '.', name@.len() as int) == last_index_of(name@, '.', d as int),
        decreases d,
    {
        d -= 1;
    }
    if d <= 1 {
        name
    } else {
        string_of(&v.as_slice()[0..d - 1])
    }
}

/// The file stem of `path` as `Path::file_stem` gives it on Unix (see
/// [`path_file_stem`]).
fn file_stem_text(path: &str) -> (r: Option<String>)
    ensures
        match path_file_stem(path@) {
            Some(s) => r matches Some(t) && t@ == s,
            None => r is None,
        },
{
    match file_name_text(path) {
        Some(n) => Some(name_stem_text(n)),
        None => None,
    }
}

/// One case of a suite: the conversations it selects and what it asserts.
#[derive(Debug)]
pub struct Case {
    pub name: Option<String>,
    pub when: BindingMap,
    pub assertions: Vec<Assertion>,
}

/// An evaluation suite.
#[derive(Debug)]
pub struct Evaluation {
    pub name: String,
    pub cases: Vec<Case>,
}

/// A conversation of the run: where it was read from, its contents, and its
/// JSON rendering (what the JSON-path families query).
#[derive(Debug)]
pub struct ConversationFile {
    pub path: String,
    pub conversation: Conversation,
    pub document: String,
}

/// Trace totals over a run.
#[derive(Debug, Clone, Copy, PartialEq, Eq, Structural)]
pub struct RunMetrics {
    pub total_input_tokens: u64,
    pub total_output_tokens: u64,
    pub total_cache_hit_tokens: u64,
    pub total_latency_ms: u64,
    pub conversations_with_trace: usize,
}

/// Verdict tally, one bucket per [`AssertionOutcome`] variant.
#[derive(Debug, Clone, Copy, PartialEq, Eq, Structural)]
pub struct BucketTotals {
    pub passed: usize,
    pub failed: usize,
    pub deferred: usize,
    pub malformed: usize,
    pub errored: usize,
}

/// Top-level rollup: how many distinct conversations at least one case
/// selected, and the tally of every verdict.
#[derive(Debug, Clone, Copy, PartialEq, Eq, Structural)]
pub struct ReportTotals {
    pub conversations_matched: usize,
    pub assertions: BucketTotals,
}

/// One assertion's verdict in the report.
#[derive(Debug, Clone, PartialEq, Eq)]
pub struct AssertionReport {
    pub class: String,
    pub outcome: String,
    pub reason: Option<String>,
}

/// The verdicts of one case on one conversation.
#[derive(Debug, Clone, PartialEq, Eq)]
pub struct MatchReport {
    pub conversation: String,
    pub assertions: Vec<AssertionReport>,
}

/// Everything one case produced.
#[derive(Debug, Clone, PartialEq, Eq)]
pub struct CaseReport {
    pub name: Option<String>,
    pub matches: Vec<MatchReport>,
}

/// The report of one evaluation run. `per_class` lists each class once, in
/// ascending order of class name.
#[derive(Debug, Clone, PartialEq, Eq)]
pub struct EvalReport {
    pub suite: String,
    pub run_id: String,
    pub model: Option<String>,
    pub metrics: Option<RunMetrics>,
    pub totals: ReportTotals,
    pub per_class: Vec<(String, BucketTotals)>,
    pub cases: Vec<CaseReport>,
}

/// Inputs of one evaluation pass.
pub struct EvalArgs<'a> {
    pub suite: &'a Evaluation,
    pub conversations: &'a Vec<ConversationFile>,
    pub numbers: &'a NumberRanks,
    pub ctx: EvaluationContext,
    pub suite_name: &'a str,
    pub run_id: &'a str,
    pub judge_output_dir: Option<&'a str>,
}

/// The serde tag of an assertion's family.
pub open spec fn class_text(a: Assertion) -> Seq<char> {
    match a {
        Assertion::Judge { .. } => "judge"@,
        Assertion::Tool { .. } => "tool"@,
        Assertion::Script { .. } => "script"@,
        Assertion::Program { .. } => "program"@,
        Assertion::MustCallTool { .. } => "must_call_tool"@,
        Assertion::MustNotCallTool { .. } => "must_not_call_tool"@,
        Assertion::ToolCallCount { .. } => "tool_call_count"@,
        Assertion::ToolCallOrder { .. } => "tool_call_order"@,
        Assertion::TextContains { .. } => "text_contains"@,
        Assertion::TextNotContains { .. } => "text_not_contains"@,
        Assertion::TextMatches { .. } => "text_matches"@,
        Assertion::TextEquals { .. } => "text_equals"@,
        Assertion::TextSemanticMatch { .. } => "text_semantic_match"@,
        Assertion::JsonPath { .. } => "json_path"@,
        Assertion::ResponseField { .. } => "response_field"@,
        Assertion::Tokens { .. } => "tokens"@,
        Assertion::LatencyMs { .. } => "latency_ms"@,
    }
}

/// The report label of a verdict.
pub open spec fn label_text(o: OutcomeView) -> Seq<char> {
    match o {
        OutcomeView::Pass => "pass"@,
        OutcomeView::Fail(_) => "fail"@,
        OutcomeView::Deferred => "deferred"@,
        OutcomeView::Malformed(_) => "malformed"@,
        OutcomeView::Errored(_) => "errored"@,
    }
}

/// The reason a verdict carries into the report: present iff non-empty.
pub open spec fn reason_text(o: OutcomeView) -> Option<Seq<char>> {
    match o {
        OutcomeView::Fail(r) | OutcomeView::Malformed(r) | OutcomeView::Errored(r) => if r.len() == 0 {
            None
        } else {
            Some(r)
        },
        _ => None,
    }
}

/// The family tag of `assertion`.
pub fn class_tag(assertion: &Assertion) -> (r: &'static str)
    ensures
        r@ == class_text(*assertion),
{
    match assertion {
        Assertion::Judge { .. } => "judge",
        Assertion::Tool { .. } => "tool",
        Assertion::Script { .. } => "script",
        Assertion::Program { .. } => "program",
        Assertion::MustCallTool { .. } => "must_call_tool",
        Assertion::MustNotCallTool { .. } => "must_not_call_tool",
        Assertion::ToolCallCount { .. } => "tool_call_count",
        Assertion::ToolCallOrder { .. } => "tool_call_order",
        Assertion::TextContains { .. } => "text_contains",
        Assertion::TextNotContains { .. } => "text_not_contains",
        Assertion::TextMatches { .. } => "text_matches",
        Assertion::TextEquals { .. } => "text_equals",
        Assertion::TextSemanticMatch { .. } => "text_semantic_match",
        Assertion::JsonPath { .. } => "json_path",
        Assertion::ResponseField { .. } => "response_field",
        Assertion::Tokens { .. } => "tokens",
        Assertion::LatencyMs { .. } => "latency_ms",
    }
}

/// The report label of `outcome`.
pub fn outcome_label(outcome: &AssertionOutcome) -> (r: &'static str)
    ensures
        r@ == label_text(outcome_view(*outcome)),
{
    match outcome {
        AssertionOutcome::Pass => "pass",
        AssertionOutcome::Fail { .. } => "fail",
        AssertionOutcome::Deferred => "deferred",
        AssertionOutcome::Malformed { .. } => "malformed",
        AssertionOutcome::Errored { .. } => "errored",
    }
}

/// The reason `outcome` carries into the report.
pub fn reason_for(outcome: &AssertionOutcome) -> (r: Option<String>)
    ensures
        match reason_text(outcome_view(*outcome)) {
            Some(t) => r matches Some(s) && s@ == t,
            None => r is None,
        },
{
    match outcome {
        AssertionOutcome::Fail { reason } | AssertionOutcome::Malformed { reason }
        | AssertionOutcome::Errored { reason } => {
            if crate::text::byte_len(reason.as_str()) == 0 {
                proof {
                    if reason@.len() > 0 {
                        crate::text::lemma_utf8_len_positive(reason@);
                    }
                }
                None
            } else {
                Some(reason.clone())
            }
        },
        AssertionOutcome::Pass | AssertionOutcome::Deferred => None,
    }
}

/// `n + 1`, held at `usize::MAX`.
pub open spec fn bump(n: usize) -> usize {
    if n < usize::MAX {
        (n + 1) as usize
    } else {
        n
    }
}

/// The tally after one more verdict labelled `label`.
#[verifier::opaque]
pub open spec fn add_label(b: BucketTotals, label: Seq<char>) -> BucketTotals {
    if label == "pass"@ {
        BucketTotals { passed: bump(b.passed), ..b }
    } else if label == "fail"@ {
        BucketTotals { failed: bump(b.failed), ..b }
    } else if label == "deferred"@ {
        BucketTotals { deferred: bump(b.deferred), ..b }
    } else if label == "malformed"@ {
        BucketTotals { malformed: bump(b.malformed), ..b }
    } else if label == "errored"@ {
        BucketTotals { errored: bump(b.errored), ..b }
    } else {
        b
    }
}

/// The empty tally.
pub open spec fn zero_totals() -> BucketTotals {
    BucketTotals { passed: 0, failed: 0, deferred: 0, malformed: 0, errored: 0 }
}

/// The tally after one more verdict `o`.
pub open spec fn add_outcome(b: BucketTotals, o: OutcomeView) -> BucketTotals {
    match o {
        OutcomeView::Pass => BucketTotals { passed: bump(b.passed), ..b },
        OutcomeView::Fail(_) => BucketTotals { failed: bump(b.failed), ..b },
        OutcomeView::Deferred => BucketTotals { deferred: bump(b.deferred), ..b },
        OutcomeView::Malformed(_) => BucketTotals { malformed: bump(b.malformed), ..b },
        OutcomeView::Errored(_) => BucketTotals { errored: bump(b.errored), ..b },
    }
}

/// Counting a verdict by its label is counting it by its variant.
pub proof fn lemma_add_label(b: BucketTotals, o: OutcomeView)
    ensures
        add_label(b, label_text(o)) == add_outcome(b, o),
{
    reveal(add_label);
    reveal_strlit("pass");
    reveal_strlit("fail");
    reveal_strlit("deferred");
    reveal_strlit("malformed");
    reveal_strlit("errored");
    match o {
        OutcomeView::Pass => {},
        OutcomeView::Fail(_) => {
            assert("fail"@ != "pass"@) by {
                assert("fail"@[0] != "pass"@[0]);
            }
        },
        OutcomeView::Deferred => {
            assert("deferred"@ != "pass"@) by {
                assert("deferred"@[0] != "pass"@[0]);
            }
            assert("deferred"@ != "fail"@) by {
                assert("deferred"@[0] != "fail"@[0]);
            }
        },
        OutcomeView::Malformed(_) => {
            assert("malformed"@ != "pass"@) by {
                assert("malformed"@[0] != "pass"@[0]);
            }
            assert("malformed"@ != "fail"@) by {
                assert("malformed"@[0] != "fail"@[0]);
            }
            assert("malformed"@ != "deferred"@) by {
                assert("malformed"@[0] != "deferred"@[0]);
            }
        },
        OutcomeView::Errored(_) => {
            assert("errored"@ != "pass"@) by {
                assert("errored"@[0] != "pass"@[0]);
            }
            assert("errored"@ != "fail"@) by {
                assert("errored"@[0] != "fail"@[0]);
            }
            assert("errored"@ != "deferred"@) by {
                assert("errored"@[0] != "deferred"@[0]);
            }
            assert("errored"@ != "malformed"@) by {
                assert("errored"@[0] != "malformed"@[0]);
            }
        },
    }
}

/// Counts one more verdict in the bucket of its variant.
pub fn fold_bucket(bucket: &mut BucketTotals, outcome: &AssertionOutcome)
    ensures
        *final(bucket) == add_outcome(*old(bucket), outcome_view(*outcome)),
{
    match outcome {
        AssertionOutcome::Pass => {
            if bucket.passed < usize::MAX {
                bucket.passed = bucket.passed + 1;
            }
        },
        AssertionOutcome::Fail { .. } => {
            if bucket.failed < usize::MAX {
                bucket.failed = bucket.failed + 1;
            }
        },
        AssertionOutcome::Deferred => {
            if bucket.deferred < usize::MAX {
                bucket.deferred = bucket.deferred + 1;
            }
        },
        AssertionOutcome::Malformed { .. } => {
            if bucket.malformed < usize::MAX {
                bucket.malformed = bucket.malformed + 1;
            }
        },
        AssertionOutcome::Errored { .. } => {
            if bucket.errored < usize::MAX {
                bucket.errored = bucket.errored + 1;
            }
        },
    }
}

/// Whether `c` is a control character (general category Cc).
pub open spec fn is_control(c: char) -> bool {
    c <= '\u{1f}' || ('\u{7f}' <= c && c <= '\u{9f}')
}

/// A character of a case name as it appears in a file name.
pub open spec fn sanitize_char(c: char) -> char {
    if is_control(c) {
        ' '
    } else if c == '/' || c == '\\' {
        '_'
    } else {
        c
    }
}

/// `name` trimmed, with control characters blanked and path separators
/// replaced by `_`.
pub open spec fn sanitized(name: Seq<char>) -> Seq<char> {
    trim(name).map_values(|c: char| sanitize_char(c))
}

/// A file-system safe form of a case name (see [`sanitized`]).
pub fn sanitize_case_name(name: &str) -> (r: String)
    ensures
        r@ == sanitized(name@),
{
    let v = chars_of(name);
    let (lo, hi) = trim_bounds(v.as_slice(), 0, v.len());
    assert(v@.subrange(0, v@.len() as int) =~= v@);
    let mut out = String::new();
    let mut i = lo;
    while i < hi
        invariant
            lo <= i <= hi <= v@.len(),
            v@.subrange(lo as int, hi as int) == trim(name@),
            v@ == name@,
            out@ =~= v@.subrange(lo as int, i as int).map_values(|c: char| sanitize_char(c)),
        decreases hi - i,
    {
        let c = v[i];
        let d = if c <= '\u{1f}' || ('\u{7f}' <= c && c <= '\u{9f}') {
            ' '
        } else if c == '/' || c == '\\' {
            '_'
        } else {
            c
        };
        out.push(d);
        i += 1;
        assert(out@ =~= v@.subrange(lo as int, i as int).map_values(|c: char| sanitize_char(c)));
    }
    out
}

/// The tag of case `index`: its sanitized name, or `case-<index>`.
pub open spec fn case_tag_text(name: Option<Seq<char>>, index: nat) -> Seq<char> {
    match name {
        Some(n) => sanitized(n),
        None => "case-"@ + dec(index),
    }
}

/// A file-system safe identifier of a case (see [`case_tag_text`]).
pub fn case_tag(case: &Case, case_index: usize) -> (r: String)
    ensures
        r@ == case_tag_text(
            match case.name { Some(n) => Some(n@), None => None },
            case_index as nat,
        ),
{
    match &case.name {
        Some(name) => sanitize_case_name(name.as_str()),
        None => {
            let mut out = String::new();
            push_str(&mut out, "case-");
            push_decimal_usize(&mut out, case_index);
            out
        },
    }
}

/// The file stem of `path`, or empty.
pub open spec fn stem_text(path: Seq<char>) -> Seq<char> {
    match path_file_stem(path) {
        Some(s) => s,
        None => Seq::empty(),
    }
}

/// The file name of `path`, or empty.
pub open spec fn filename_text(path: Seq<char>) -> Seq<char> {
    match path_file_name(path) {
        Some(s) => s,
        None => Seq::empty(),
    }
}

/// The file stem of `path` (empty when it has none).
pub fn stem_of(path: &str) -> (r: String)
    ensures
        r@ == stem_text(path@),
{
    match file_stem_text(path) {
        Some(s) => s,
        None => String::new(),
    }
}

/// The file name of `path` (empty when it has none).
pub fn filename_of(path: &str) -> (r: String)
    ensures
        r@ == filename_text(path@),
{
    match file_name_text(path) {
        Some(s) => s,
        None => String::new(),
    }
}

/// Whether every binding of `needle` is bound in `haystack` to an equal value.
pub open spec fn binding_contains_spec(haystack: Seq<(Seq<char>, YamlView)>, needle: Seq<(Seq<char>, YamlView)>) -> bool {
    forall|i: int| 0 <= i < needle.len() ==> lookup_binding(haystack, #[trigger] needle[i].0) == Some(needle[i].1)
}

fn lookup_value<'a>(haystack: &'a BindingMap, key: &str) -> (r: Option<&'a crate::conversation::YamlValue>)
    ensures
        match lookup_binding(binding_view(*haystack), key@) {
            Some(v) => r matches Some(x) && yaml_view(*x) == v,
            None => r is None,
        },
{
    let ghost bv = binding_view(*haystack);
    let mut i: usize = 0;
    assert(bv.skip(0) =~= bv);
    while i < haystack.entries.len()
        invariant
            i <= haystack.entries@.len(),
            bv == binding_view(*haystack),
            bv.len() == haystack.entries@.len(),
            lookup_binding(bv, key@) == lookup_binding(bv.skip(i as int), key@),
        decreases haystack.entries.len() - i,
    {
        let ghost rest = bv.skip(i as int);
        assert(rest[0] == bv[i as int]);
        if crate::text::str_eq(haystack.entries[i].0.as_str(), key) {
            return Some(&haystack.entries[i].1);
        }
        assert(rest.drop_first() =~= bv.skip(i + 1));
        i += 1;
    }
    None
}

/// Whether `needle` is a sub-map of `haystack` (see [`binding_contains_spec`]).
pub fn binding_contains(haystack: &BindingMap, needle: &BindingMap) -> (r: bool)
    ensures
        r == binding_contains_spec(binding_view(*haystack), binding_view(*needle)),
{
    let ghost nv = binding_view(*needle);
    let mut i: usize = 0;
    while i < needle.entries.len()
        invariant
            i <= needle.entries@.len(),
            nv == binding_view(*needle),
            nv.len() == needle.entries@.len(),
            forall|k: int| 0 <= k < i ==> lookup_binding(binding_view(*haystack), #[trigger] nv[k].0) == Some(nv[k].1),
        decreases needle.entries.len() - i,
    {
        let (k, v) = (&needle.entries[i].0, &needle.entries[i].1);
        assert(nv[i as int] == (k@, yaml_view(*v)));
        let ok = match lookup_value(haystack, k.as_str()) {
            Some(got) => yaml_eq(got, v),
            None => false,
        };
        if !ok {
            assert(lookup_binding(binding_view(*haystack), nv[i as int].0) != Some(nv[i as int].1));
            return false;
        }
        i += 1;
    }
    true
}

/// Whether `case` selects the conversation `f`: by file stem for a named
/// case, by bindings for a `when:` case, and always otherwise.
pub open spec fn selects(case: Case, f: ConversationFile) -> bool {
    match case.name {
        Some(target) => stem_text(f.path@) == target@,
        None => binding_view(case.when).len() == 0 || binding_contains_spec(
            binding_view(f.conversation.meta.binding),
            binding_view(case.when),
        ),
    }
}

/// Indices (below `n`) of the conversations `case` selects, in order.
pub open spec fn selected(case: Case, files: Seq<ConversationFile>, n: int) -> Seq<int>
    decreases n,
{
    if n <= 0 {
        Seq::empty()
    } else if selects(case, files[n - 1]) {
        selected(case, files, n - 1).push(n - 1)
    } else {
        selected(case, files, n - 1)
    }
}

/// Whether `case` selects the conversation `f` (see [`selects`]).
fn case_selects(case: &Case, f: &ConversationFile) -> (r: bool)
    ensures
        r == selects(*case, *f),
{
    proof {
        assert(binding_view(case.when).len() == case.when.entries@.len());
    }
    match &case.name {
        Some(target) => {
            let stem = stem_of(f.path.as_str());
            crate::text::str_eq(stem.as_str(), target.as_str())
        },
        None => case.when.entries.len() == 0 || binding_contains(&f.conversation.meta.binding, &case.when),
    }
}

/// Indices of the conversations that `case` selects, in order.
pub fn matches_for(case: &Case, conversations: &Vec<ConversationFile>) -> (r: Vec<usize>)
    ensures
        r@.map_values(|j: usize| j as int) == selected(*case, conversations@, conversations@.len() as int),
{
    let mut out: Vec<usize> = Vec::new();
    let mut i: usize = 0;
    while i < conversations.len()
        invariant
            i <= conversations@.len(),
            out@.map_values(|j: usize| j as int) =~= selected(*case, conversations@, i as int),
        decreases conversations.len() - i,
    {
        let hit = case_selects(case, &conversations[i]);
        if hit {
            out.push(i);
        }
        i += 1;
        assert(out@.map_values(|j: usize| j as int) =~= selected(*case, conversations@, i as int));
    }
    out
}

/// One assertion record as plain values: class, label, reason.
pub type RecordView = (Seq<char>, Seq<char>, Option<Seq<char>>);

/// The view of an assertion record.
pub open spec fn record_view(a: AssertionReport) -> RecordView {
    (a.class@, a.outcome@, match a.reason { Some(r) => Some(r@), None => None })
}

/// The view of a match report: conversation name and records.
pub open spec fn match_view(m: MatchReport) -> (Seq<char>, Seq<RecordView>) {
    (m.conversation@, m.assertions@.map_values(|a: AssertionReport| record_view(a)))
}

/// The view of a case report.
pub open spec fn case_view(c: CaseReport) -> (Option<Seq<char>>, Seq<(Seq<char>, Seq<RecordView>)>) {
    (match c.name { Some(n) => Some(n@), None => None }, c.matches@.map_values(|m: MatchReport| match_view(m)))
}

/// The record of assertion `a` checked against `f`.
pub open spec fn record_spec(a: Assertion, f: ConversationFile, ranks: Seq<(Seq<char>, u64)>) -> RecordView {
    let o = check_spec(a, f.conversation.session@, f.document@, ranks);
    (class_text(a), label_text(o), reason_text(o))
}

/// The report of `case` on the conversation `f`.
pub open spec fn match_spec(case: Case, f: ConversationFile, ranks: Seq<(Seq<char>, u64)>) -> (Seq<char>, Seq<RecordView>) {
    (filename_text(f.path@), case.assertions@.map_values(|a: Assertion| record_spec(a, f, ranks)))
}

/// The record synthesized for a named case that selects nothing.
pub open spec fn missing_record(name: Seq<char>) -> RecordView {
    (
        "missing_conversation"@,
        "malformed"@,
        Some("no conversation found for case name "@ + crate::assertions::debug_quoted(name)),
    )
}

/// The report of case `case`.
pub open spec fn case_spec(
    case: Case,
    files: Seq<ConversationFile>,
    ranks: Seq<(Seq<char>, u64)>,
) -> (Option<Seq<char>>, Seq<(Seq<char>, Seq<RecordView>)>) {
    let name = match case.name { Some(n) => Some(n@), None => None };
    let sel = selected(case, files, files.len() as int);
    if sel.len() == 0 && name is Some {
        (name, seq![(Seq::empty(), seq![missing_record(name->0)])])
    } else {
        (name, sel.map_values(|j: int| match_spec(case, files[j], ranks)))
    }
}

/// Every record of the cases, in order.
pub open spec fn all_records(cases: Seq<(Option<Seq<char>>, Seq<(Seq<char>, Seq<RecordView>)>)>) -> Seq<RecordView>
    decreases cases.len(),
{
    if cases.len() == 0 {
        Seq::empty()
    } else {
        all_records(cases.drop_last()) + match_records(cases.last().1)
    }
}

/// Every record of the matches, in order.
pub open spec fn match_records(matches: Seq<(Seq<char>, Seq<RecordView>)>) -> Seq<RecordView>
    decreases matches.len(),
{
    if matches.len() == 0 {
        Seq::empty()
    } else {
        match_records(matches.drop_last()) + matches.last().1
    }
}

/// The tally of the labels of `records`.
pub open spec fn tally(records: Seq<RecordView>) -> BucketTotals
    decreases records.len(),
{
    if records.len() == 0 {
        zero_totals()
    } else {
        add_label(tally(records.drop_last()), records.last().1)
    }
}

/// The records of class `class`.
pub open spec fn of_class(records: Seq<RecordView>, class: Seq<char>) -> Seq<RecordView>
    decreases records.len(),
{
    if records.len() == 0 {
        Seq::empty()
    } else if records.last().0 == class {
        of_class(records.drop_last(), class).push(records.last())
    } else {
        of_class(records.drop_last(), class)
    }
}


/// Whether some message of the session carries a trace.
pub open spec fn has_trace(session: Seq<Message>) -> bool {
    exists|i: int| 0 <= i < session.len() && (#[trigger] session[i]).trace is Some
}

/// `n`, held at `u64::MAX`.
pub open spec fn cap_u64(n: nat) -> u64 {
    if n > u64::MAX {
        u64::MAX
    } else {
        n as u64
    }
}

/// Sum of quantity `m` over every conversation.
pub open spec fn run_total(files: Seq<ConversationFile>, m: TraceMeasure) -> nat
    decreases files.len(),
{
    if files.len() == 0 {
        0
    } else {
        run_total(files.drop_last(), m) + crate::conversation::trace_total(files.last().conversation.session@, m)
    }
}

/// Number of conversations with at least one trace.
pub open spec fn traced_count(files: Seq<ConversationFile>) -> nat
    decreases files.len(),
{
    if files.len() == 0 {
        0
    } else {
        traced_count(files.drop_last()) + if has_trace(files.last().conversation.session@) { 1nat } else { 0nat }
    }
}

/// The model of the first conversation, if any.
pub open spec fn run_model(files: Seq<ConversationFile>) -> Option<Seq<char>> {
    if files.len() == 0 {
        None
    } else {
        Some(files[0].conversation.meta.model@)
    }
}

/// The trace metrics of a run: present iff some conversation carries a
/// trace; each total held at `u64::MAX`.
pub open spec fn run_metrics(files: Seq<ConversationFile>) -> Option<RunMetrics> {
    if traced_count(files) == 0 {
        None
    } else {
        Some(RunMetrics {
            total_input_tokens: cap_u64(run_total(files, TraceMeasure::InputTokens)),
            total_output_tokens: cap_u64(run_total(files, TraceMeasure::OutputTokens)),
            total_cache_hit_tokens: cap_u64(run_total(files, TraceMeasure::CacheHitTokens)),
            total_latency_ms: cap_u64(run_total(files, TraceMeasure::Latency)),
            conversations_with_trace: traced_count(files) as usize,
        })
    }
}

fn session_has_trace(conversation: &Conversation) -> (r: bool)
    ensures
        r == has_trace(conversation.session@),
{
    let mut i: usize = 0;
    while i < conversation.session.len()
        invariant
            i <= conversation.session@.len(),
            forall|j: int| 0 <= j < i ==> (#[trigger] conversation.session@[j]).trace is None,
        decreases conversation.session.len() - i,
    {
        if conversation.session[i].trace.is_some() {
            return true;
        }
        i += 1;
    }
    false
}

fn add_capped(acc: u64, n: u128) -> (r: u64)
    ensures
        r == if acc + n > u64::MAX { u64::MAX as int } else { acc + n },
{
    let room = (u64::MAX - acc) as u128;
    if n > room {
        u64::MAX
    } else {
        acc + n as u64
    }
}

proof fn lemma_cap_step(prev: nat, x: nat, acc: u64)
    requires
        acc == cap_u64(prev),
    ensures
        (if acc + x > u64::MAX { u64::MAX as int } else { acc + x }) == cap_u64(prev + x),
{
}

/// The model of the first conversation and the run's trace metrics (see
/// [`run_metrics`]).
pub fn collect_run_metrics(conversations: &Vec<ConversationFile>) -> (r: (Option<String>, Option<RunMetrics>))
    ensures
        match run_model(conversations@) {
            Some(m) => r.0 matches Some(s) && s@ == m,
            None => r.0 is None,
        },
        r.1 == run_metrics(conversations@),
{
    let model = if conversations.len() == 0 {
        None
    } else {
        Some(conversations[0].conversation.meta.model.clone())
    };
    let mut input: u64 = 0;
    let mut output: u64 = 0;
    let mut cache_hit: u64 = 0;
    let mut latency: u64 = 0;
    let mut with_trace: usize = 0;
    let mut i: usize = 0;
    while i < conversations.len()
        invariant
            i <= conversations@.len(),
            input == cap_u64(run_total(conversations@.take(i as int), TraceMeasure::InputTokens)),
            output == cap_u64(run_total(conversations@.take(i as int), TraceMeasure::OutputTokens)),
            cache_hit == cap_u64(run_total(conversations@.take(i as int), TraceMeasure::CacheHitTokens)),
            latency == cap_u64(run_total(conversations@.take(i as int), TraceMeasure::Latency)),
            with_trace == traced_count(conversations@.take(i as int)),
            with_trace <= i,
        decreases conversations.len() - i,
    {
        let ghost prefix = conversations@.take(i as int);
        let c = &conversations[i].conversation;
        proof {
            assert(conversations@.take(i + 1).drop_last() =~= prefix);
            assert(conversations@.take(i + 1).last() == conversations@[i as int]);
            lemma_cap_step(run_total(prefix, TraceMeasure::InputTokens), crate::conversation::trace_total(c.session@, TraceMeasure::InputTokens), input);
            lemma_cap_step(run_total(prefix, TraceMeasure::OutputTokens), crate::conversation::trace_total(c.session@, TraceMeasure::OutputTokens), output);
            lemma_cap_step(run_total(prefix, TraceMeasure::CacheHitTokens), crate::conversation::trace_total(c.session@, TraceMeasure::CacheHitTokens), cache_hit);
            lemma_cap_step(run_total(prefix, TraceMeasure::Latency), crate::conversation::trace_total(c.session@, TraceMeasure::Latency), latency);
        }
        input = add_capped(input, crate::conversation::sum_traces(c, TraceMeasure::InputTokens));
        output = add_capped(output, crate::conversation::sum_traces(c, TraceMeasure::OutputTokens));
        cache_hit = add_capped(cache_hit, crate::conversation::sum_traces(c, TraceMeasure::CacheHitTokens));
        latency = add_capped(latency, crate::conversation::sum_traces(c, TraceMeasure::Latency));
        if session_has_trace(c) {
            with_trace = with_trace + 1;
        }
        i += 1;
    }
    assert(conversations@.take(conversations@.len() as int) =~= conversations@);
    let metrics = if with_trace > 0 {
        Some(RunMetrics {
            total_input_tokens: input,
            total_output_tokens: output,
            total_cache_hit_tokens: cache_hit,
            total_latency_ms: latency,
            conversations_with_trace: with_trace,
        })
    } else {
        None
    };
    (model, metrics)
}


/// The views of case reports.
pub open spec fn cases_view(cases: Seq<CaseReport>) -> Seq<(Option<Seq<char>>, Seq<(Seq<char>, Seq<RecordView>)>)> {
    cases.map_values(|c: CaseReport| case_view(c))
}

fn owned(s: &str) -> (r: String)
    ensures
        r@ == s@,
{
    s.to_owned()
}

fn record_for(a: &Assertion, f: &ConversationFile, numbers: &NumberRanks, ctx: &EvaluationContext) -> (r: AssertionReport)
    ensures
        record_view(r) == record_spec(*a, *f, ranks_view(*numbers)),
{
    let o = a.check(&f.conversation, f.document.as_str(), numbers, ctx);
    AssertionReport { class: owned(class_tag(a)), outcome: owned(outcome_label(&o)), reason: reason_for(&o) }
}

fn case_report(case: &Case, files: &Vec<ConversationFile>, numbers: &NumberRanks, ctx: &EvaluationContext) -> (r: CaseReport)
    ensures
        case_view(r) == case_spec(*case, files@, ranks_view(*numbers)),
{
    let ghost ranks = ranks_view(*numbers);
    let matched = matches_for(case, files);
    let ghost sel = selected(*case, files@, files@.len() as int);
    proof {
        assert(matched@.len() == sel.len());
        assert forall|j: int| 0 <= j < sel.len() implies 0 <= #[trigger] sel[j] < files@.len() by {
            lemma_selected_bounds(*case, files@, files@.len() as int, j);
        }
    }
    let mut matches: Vec<MatchReport> = Vec::new();
    if matched.len() == 0 && case.name.is_some() {
        let name = match &case.name { Some(n) => n, None => { return CaseReport { name: None, matches }; } };
        let mut reason = String::new();
        push_str(&mut reason, "no conversation found for case name ");
        let q = crate::assertions::debug_quote(name.as_str());
        push_str(&mut reason, q.as_str());
        let mut assertions: Vec<AssertionReport> = Vec::new();
        assertions.push(AssertionReport {
            class: owned("missing_conversation"),
            outcome: owned("malformed"),
            reason: Some(reason),
        });
        matches.push(MatchReport { conversation: String::new(), assertions });
        let r = CaseReport { name: Some(name.clone()), matches };
        proof {
            let want = case_spec(*case, files@, ranks);
            assert(case_view(r).1[0].1 =~= want.1[0].1);
            assert(case_view(r).1 =~= want.1);
        }
        return r;
    }
    let mut j: usize = 0;
    while j < matched.len()
        invariant
            j <= matched@.len(),
            matched@.len() == sel.len(),
            matched@.map_values(|x: usize| x as int) == sel,
            forall|t: int| 0 <= t < sel.len() ==> 0 <= #[trigger] sel[t] < files@.len(),
            ranks == ranks_view(*numbers),
            matches@.len() == j,
            forall|t: int| 0 <= t < j ==> #[trigger] match_view(matches@[t]) == match_spec(*case, files@[sel[t]], ranks),
        decreases matched.len() - j,
    {
        assert(matched@[j as int] as int == sel[j as int]);
        let f = &files[matched[j]];
        let mut assertions: Vec<AssertionReport> = Vec::new();
        let mut k: usize = 0;
        while k < case.assertions.len()
            invariant
                k <= case.assertions@.len(),
                ranks == ranks_view(*numbers),
                assertions@.len() == k,
                forall|t: int| 0 <= t < k ==> #[trigger] record_view(assertions@[t]) == record_spec(case.assertions@[t], *f, ranks),
            decreases case.assertions.len() - k,
        {
            assertions.push(record_for(&case.assertions[k], f, numbers, ctx));
            k += 1;
        }
        let m = MatchReport { conversation: filename_of(f.path.as_str()), assertions };
        proof {
            assert(match_view(m).1 =~= case.assertions@.map_values(|a: Assertion| record_spec(a, *f, ranks)));
        }
        matches.push(m);
        j += 1;
    }
    let name = match &case.name { Some(n) => Some(n.clone()), None => None };
    let r = CaseReport { name, matches };
    proof {
        let want = case_spec(*case, files@, ranks);
        assert(case_view(r).1 =~= want.1);
    }
    r
}

proof fn lemma_selected_bounds(case: Case, files: Seq<ConversationFile>, n: int, j: int)
    requires
        0 <= n <= files.len(),
        0 <= j < selected(case, files, n).len(),
    ensures
        0 <= selected(case, files, n)[j] < n,
    decreases n,
{
    if n > 0 {
        let prev = selected(case, files, n - 1);
        if j < prev.len() {
            lemma_selected_bounds(case, files, n - 1, j);
        }
    }
}


/// The views of flattened records.
pub open spec fn records_view(recs: Seq<&AssertionReport>) -> Seq<RecordView> {
    recs.map_values(|a: &AssertionReport| record_view(*a))
}

/// Every assertion record of `cases`, in order (see [`all_records`]).
pub(crate) fn flat_records(cases: &Vec<CaseReport>) -> (r: Vec<&AssertionReport>)
    ensures
        records_view(r@) == all_records(cases_view(cases@)),
{
    let ghost cv = cases_view(cases@);
    let mut out: Vec<&AssertionReport> = Vec::new();
    let mut i: usize = 0;
    while i < cases.len()
        invariant
            i <= cases@.len(),
            cv == cases_view(cases@),
            records_view(out@) == all_records(cv.take(i as int)),
        decreases cases.len() - i,
    {
        let ghost base = all_records(cv.take(i as int));
        let ghost mv = cv[i as int].1;
        let ms = &cases[i].matches;
        assert(mv == ms@.map_values(|m: MatchReport| match_view(m)));
        let mut j: usize = 0;
        while j < ms.len()
            invariant
                j <= ms@.len(),
                mv == ms@.map_values(|m: MatchReport| match_view(m)),
                records_view(out@) == base + match_records(mv.take(j as int)),
            decreases ms.len() - j,
        {
            let ghost before = records_view(out@);
            let rs = &ms[j].assertions;
            let ghost rv = mv[j as int].1;
            assert(rv == rs@.map_values(|a: AssertionReport| record_view(a)));
            let mut t: usize = 0;
            while t < rs.len()
                invariant
                    t <= rs@.len(),
                    rv == rs@.map_values(|a: AssertionReport| record_view(a)),
                    records_view(out@) == before + rv.take(t as int),
                decreases rs.len() - t,
            {
                let ghost o = out@;
                assert(rv[t as int] == record_view(rs@[t as int]));
                out.push(&rs[t]);
                proof {
                    assert(out@ == o.push(&rs@[t as int]));
                    assert(records_view(out@) =~= records_view(o).push(rv[t as int]));
                    assert(before + rv.take(t + 1) =~= (before + rv.take(t as int)).push(rv[t as int]));
                }
                t += 1;
            }
            proof {
                assert(rv.take(rv.len() as int) =~= rv);
                assert(mv.take(j + 1).drop_last() =~= mv.take(j as int));
                assert(mv.take(j + 1).last() == mv[j as int]);
                assert(records_view(out@) =~= base + match_records(mv.take(j + 1)));
            }
            j += 1;
        }
        proof {
            assert(mv.take(mv.len() as int) =~= mv);
            assert(cv.take(i + 1).drop_last() =~= cv.take(i as int));
            assert(cv.take(i + 1).last() == cv[i as int]);
        }
        i += 1;
    }
    assert(cv.take(cv.len() as int) =~= cv);
    out
}

fn fold_label(bucket: &mut BucketTotals, label: &str)
    ensures
        *final(bucket) == add_label(*old(bucket), label@),
{
    proof {
        reveal(add_label);
    }
    if crate::text::str_eq(label, "pass") {
        if bucket.passed < usize::MAX {
            bucket.passed = bucket.passed + 1;
        }
    } else if crate::text::str_eq(label, "fail") {
        if bucket.failed < usize::MAX {
            bucket.failed = bucket.failed + 1;
        }
    } else if crate::text::str_eq(label, "deferred") {
        if bucket.deferred < usize::MAX {
            bucket.deferred = bucket.deferred + 1;
        }
    } else if crate::text::str_eq(label, "malformed") {
        if bucket.malformed < usize::MAX {
            bucket.malformed = bucket.malformed + 1;
        }
    } else if crate::text::str_eq(label, "errored") {
        if bucket.errored < usize::MAX {
            bucket.errored = bucket.errored + 1;
        }
    }
}

fn zero() -> (r: BucketTotals)
    ensures
        r == zero_totals(),
{
    BucketTotals { passed: 0, failed: 0, deferred: 0, malformed: 0, errored: 0 }
}

/// The tally of the records' labels.
fn tally_records(recs: &Vec<&AssertionReport>) -> (r: BucketTotals)
    ensures
        r == tally(records_view(recs@)),
{
    let ghost rv = records_view(recs@);
    let mut b = zero();
    let mut i: usize = 0;
    while i < recs.len()
        invariant
            i <= recs@.len(),
            rv == records_view(recs@),
            b == tally(rv.take(i as int)),
        decreases recs.len() - i,
    {
        proof {
            assert(rv.take(i + 1).drop_last() =~= rv.take(i as int));
            assert(rv.take(i + 1).last() == rv[i as int]);
        }
        fold_label(&mut b, recs[i].outcome.as_str());
        i += 1;
    }
    assert(rv.take(rv.len() as int) =~= rv);
    b
}

/// No class is listed twice.
pub open spec fn keys_distinct(per_class: Seq<(Seq<char>, BucketTotals)>) -> bool {
    forall|a: int, b: int| 0 <= a < b < per_class.len() ==> per_class[a].0 != per_class[b].0
}

/// Each listed tally is the tally of its class's records.
pub open spec fn tallies_match(per_class: Seq<(Seq<char>, BucketTotals)>, records: Seq<RecordView>) -> bool {
    forall|a: int| 0 <= a < per_class.len() ==> #[trigger] per_class[a].1 == tally(of_class(records, per_class[a].0))
}

/// Each listed class has a record.
pub open spec fn keys_used(per_class: Seq<(Seq<char>, BucketTotals)>, records: Seq<RecordView>) -> bool {
    forall|a: int| 0 <= a < per_class.len() ==> #[trigger] of_class(records, per_class[a].0).len() > 0
}

/// The listed classes, in order.
pub open spec fn keys_of(per_class: Seq<(Seq<char>, BucketTotals)>) -> Seq<Seq<char>> {
    per_class.map_values(|e: (Seq<char>, BucketTotals)| e.0)
}

/// Each record's class is listed.
pub open spec fn classes_covered(per_class: Seq<(Seq<char>, BucketTotals)>, records: Seq<RecordView>) -> bool {
    forall|r: int| 0 <= r < records.len() ==> keys_of(per_class).contains(#[trigger] records[r].0)
}

/// The classes are listed in ascending order of name.
pub open spec fn keys_ascending(per_class: Seq<(Seq<char>, BucketTotals)>) -> bool {
    forall|a: int, b: int| 0 <= a < b < per_class.len() ==> seq_lt(per_class[a].0, per_class[b].0)
}

/// Per-class tallies: each class of the records listed once, in ascending
/// order of name, with the tally of that class's records, and nothing else
/// listed.
pub open spec fn class_tallies_ok(per_class: Seq<(Seq<char>, BucketTotals)>, records: Seq<RecordView>) -> bool {
    &&& keys_distinct(per_class)
    &&& keys_ascending(per_class)
    &&& tallies_match(per_class, records)
    &&& keys_used(per_class, records)
    &&& classes_covered(per_class, records)
}

proof fn lemma_of_class_push(prev: Seq<RecordView>, rec: RecordView, c: Seq<char>)
    ensures
        of_class(prev.push(rec), c) == if rec.0 == c { of_class(prev, c).push(rec) } else { of_class(prev, c) },
{
    assert(prev.push(rec).drop_last() =~= prev);
}

proof fn lemma_tally_push_one(recs: Seq<RecordView>, rec: RecordView)
    ensures
        tally(recs.push(rec)) == add_label(tally(recs), rec.1),
{
    assert(recs.push(rec).drop_last() =~= recs);
}

/// The per-class entries as plain values.
pub open spec fn per_class_view(p: Seq<(String, BucketTotals)>) -> Seq<(Seq<char>, BucketTotals)> {
    p.map_values(|e: (String, BucketTotals)| (e.0@, e.1))
}

proof fn lemma_of_class_absent(records: Seq<RecordView>, class: Seq<char>)
    requires
        forall|r: int| 0 <= r < records.len() ==> records[r].0 != class,
    ensures
        of_class(records, class) == Seq::<RecordView>::empty(),
    decreases records.len(),
{
    if records.len() > 0 {
        lemma_of_class_absent(records.drop_last(), class);
        assert(records.last() == records[records.len() - 1]);
    }
}

fn find_class(out: &Vec<(String, BucketTotals)>, class: &str) -> (r: Option<usize>)
    ensures
        match r {
            Some(a) => a < out@.len() && per_class_view(out@)[a as int].0 == class@,
            None => forall|x: int| 0 <= x < out@.len() ==> #[trigger] per_class_view(out@)[x].0 != class@,
        },
{
    let mut a: usize = 0;
    while a < out.len()
        invariant
            a <= out@.len(),
            forall|x: int| 0 <= x < a ==> #[trigger] per_class_view(out@)[x].0 != class@,
        decreases out.len() - a,
    {
        if crate::text::str_eq(out[a].0.as_str(), class) {
            return Some(a);
        }
        a += 1;
    }
    None
}

proof fn lemma_tally_update(pv: Seq<(Seq<char>, BucketTotals)>, prev: Seq<RecordView>, rec: RecordView, a: int)
    requires
        class_tallies_ok(pv, prev),
        0 <= a < pv.len(),
        pv[a].0 == rec.0,
    ensures
        class_tallies_ok(pv.update(a, (rec.0, add_label(pv[a].1, rec.1))), prev.push(rec)),
{
    let nv = pv.update(a, (rec.0, add_label(pv[a].1, rec.1)));
    let cur = prev.push(rec);
    assert(keys_distinct(nv)) by {
        assert forall|x: int, y: int| 0 <= x < y < nv.len() implies nv[x].0 != nv[y].0 by {
            assert(pv[x].0 != pv[y].0);
        }
    }
    assert(keys_ascending(nv)) by {
        assert forall|x: int, y: int| 0 <= x < y < nv.len() implies seq_lt(nv[x].0, nv[y].0) by {
            assert(seq_lt(pv[x].0, pv[y].0));
        }
    }
    assert(tallies_match(nv, cur)) by {
        assert forall|x: int| 0 <= x < nv.len() implies #[trigger] nv[x].1 == tally(of_class(cur, nv[x].0)) by {
            lemma_of_class_push(prev, rec, nv[x].0);
            assert(pv[x].1 == tally(of_class(prev, pv[x].0)));
            if x == a {
                lemma_tally_push_one(of_class(prev, rec.0), rec);
            }
        }
    }
    assert(keys_used(nv, cur)) by {
        assert forall|x: int| 0 <= x < nv.len() implies #[trigger] of_class(cur, nv[x].0).len() > 0 by {
            lemma_of_class_push(prev, rec, nv[x].0);
            assert(of_class(prev, pv[x].0).len() > 0);
        }
    }
    assert(keys_of(nv) =~= keys_of(pv));
    assert(classes_covered(nv, cur)) by {
        assert forall|r: int| 0 <= r < cur.len() implies keys_of(nv).contains(#[trigger] cur[r].0) by {
            if r < prev.len() {
                assert(cur[r] == prev[r]);
                assert(keys_of(pv).contains(prev[r].0));
            } else {
                assert(keys_of(nv)[a] == cur[r].0);
            }
        }
    }
}

proof fn lemma_tally_insert(pv: Seq<(Seq<char>, BucketTotals)>, prev: Seq<RecordView>, rec: RecordView, p: int)
    requires
        class_tallies_ok(pv, prev),
        0 <= p <= pv.len(),
        forall|x: int| 0 <= x < p ==> seq_lt(#[trigger] pv[x].0, rec.0),
        forall|x: int| p <= x < pv.len() ==> seq_lt(rec.0, #[trigger] pv[x].0),
    ensures
        class_tallies_ok(pv.insert(p, (rec.0, add_label(zero_totals(), rec.1))), prev.push(rec)),
{
    let item = (rec.0, add_label(zero_totals(), rec.1));
    let nv = pv.insert(p, item);
    let cur = prev.push(rec);
    assert forall|x: int| 0 <= x < pv.len() implies #[trigger] pv[x].0 != rec.0 by {
        crate::text::lemma_seq_lt_total(rec.0, rec.0);
    }
    assert forall|x: int| 0 <= x < nv.len() implies #[trigger] nv[x] == if x < p { pv[x] } else if x == p { item } else { pv[x - 1] } by {
    }
    assert forall|r: int| 0 <= r < prev.len() implies prev[r].0 != rec.0 by {
        assert(keys_of(pv).contains(prev[r].0));
        let x = choose|x: int| 0 <= x < keys_of(pv).len() && keys_of(pv)[x] == prev[r].0;
        assert(pv[x].0 != rec.0);
    }
    lemma_of_class_absent(prev, rec.0);
    assert(keys_ascending(nv)) by {
        assert forall|x: int, y: int| 0 <= x < y < nv.len() implies seq_lt(nv[x].0, nv[y].0) by {
            if y < p {
                assert(seq_lt(pv[x].0, pv[y].0));
            } else if y == p {
                assert(seq_lt(pv[x].0, rec.0));
            } else if x < p {
                assert(seq_lt(pv[x].0, rec.0));
                assert(seq_lt(rec.0, pv[y - 1].0));
                crate::text::lemma_seq_lt_trans(pv[x].0, rec.0, pv[y - 1].0);
            } else if x == p {
                assert(seq_lt(rec.0, pv[y - 1].0));
            } else {
                assert(seq_lt(pv[x - 1].0, pv[y - 1].0));
            }
        }
    }
    assert(keys_distinct(nv)) by {
        assert forall|x: int, y: int| 0 <= x < y < nv.len() implies nv[x].0 != nv[y].0 by {
            assert(seq_lt(nv[x].0, nv[y].0));
            crate::text::lemma_seq_lt_total(nv[x].0, nv[y].0);
        }
    }
    assert(tallies_match(nv, cur)) by {
        assert forall|x: int| 0 <= x < nv.len() implies #[trigger] nv[x].1 == tally(of_class(cur, nv[x].0)) by {
            lemma_of_class_push(prev, rec, nv[x].0);
            if x < p {
                assert(pv[x].1 == tally(of_class(prev, pv[x].0)));
            } else if x == p {
                lemma_tally_push_one(Seq::<RecordView>::empty(), rec);
            } else {
                assert(pv[x - 1].1 == tally(of_class(prev, pv[x - 1].0)));
            }
        }
    }
    assert(keys_used(nv, cur)) by {
        assert forall|x: int| 0 <= x < nv.len() implies #[trigger] of_class(cur, nv[x].0).len() > 0 by {
            lemma_of_class_push(prev, rec, nv[x].0);
            if x < p {
                assert(of_class(prev, pv[x].0).len() > 0);
            } else if x > p {
                assert(of_class(prev, pv[x - 1].0).len() > 0);
            }
        }
    }
    assert(classes_covered(nv, cur)) by {
        assert forall|r: int| 0 <= r < cur.len() implies keys_of(nv).contains(#[trigger] cur[r].0) by {
            if r < prev.len() {
                assert(cur[r] == prev[r]);
                assert(keys_of(pv).contains(prev[r].0));
                let x = choose|x: int| 0 <= x < keys_of(pv).len() && keys_of(pv)[x] == prev[r].0;
                if x < p {
                    assert(keys_of(nv)[x] == prev[r].0);
                } else {
                    assert(keys_of(nv)[x + 1] == prev[r].0);
                }
            } else {
                assert(keys_of(nv)[p] == cur[r].0);
            }
        }
    }
}

/// Where a class absent from the ascending list `out` goes: after every
/// name below it, before every name above it.
fn insert_point(out: &Vec<(String, BucketTotals)>, class: &str) -> (p: usize)
    requires
        keys_ascending(per_class_view(out@)),
        forall|x: int| 0 <= x < out@.len() ==> #[trigger] per_class_view(out@)[x].0 != class@,
    ensures
        p <= out@.len(),
        forall|x: int| 0 <= x < p ==> seq_lt(#[trigger] per_class_view(out@)[x].0, class@),
        forall|x: int| p <= x < out@.len() ==> seq_lt(class@, #[trigger] per_class_view(out@)[x].0),
{
    let ghost pv = per_class_view(out@);
    let mut p: usize = 0;
    while p < out.len() && str_lt(out[p].0.as_str(), class)
        invariant
            p <= out@.len(),
            pv == per_class_view(out@),
            forall|x: int| 0 <= x < p ==> seq_lt(#[trigger] pv[x].0, class@),
        decreases out.len() - p,
    {
        p += 1;
    }
    assert forall|x: int| p <= x < out@.len() implies seq_lt(class@, #[trigger] pv[x].0) by {
        assert(pv[p as int].0 == out@[p as int].0@);
        assert(!seq_lt(pv[p as int].0, class@));
        crate::text::lemma_seq_lt_total(pv[p as int].0, class@);
        assert(pv[p as int].0 != class@);
        if x > p {
            assert(seq_lt(pv[p as int].0, pv[x].0));
            crate::text::lemma_seq_lt_trans(class@, pv[p as int].0, pv[x].0);
        }
    }
    p
}

fn class_tallies(recs: &Vec<&AssertionReport>) -> (r: Vec<(String, BucketTotals)>)
    ensures
        class_tallies_ok(per_class_view(r@), records_view(recs@)),
{
    let ghost rv = records_view(recs@);
    let mut out: Vec<(String, BucketTotals)> = Vec::new();
    let mut i: usize = 0;
    while i < recs.len()
        invariant
            i <= recs@.len(),
            rv == records_view(recs@),
            class_tallies_ok(per_class_view(out@), rv.take(i as int)),
        decreases recs.len() - i,
    {
        let ghost prev = rv.take(i as int);
        let ghost pv = per_class_view(out@);
        proof {
            assert(rv.take(i + 1) =~= prev.push(rv[i as int]));
            assert(rv[i as int] == record_view(*recs@[i as int]));
        }
        let class = recs[i].class.as_str();
        let label = recs[i].outcome.as_str();
        match find_class(&out, class) {
            Some(a) => {
                let mut b = out[a].1;
                fold_label(&mut b, label);
                let key = owned(out[a].0.as_str());
                out.set(a, (key, b));
                proof {
                    assert(per_class_view(out@) =~= pv.update(a as int, (class@, b)));
                    lemma_tally_update(pv, prev, rv[i as int], a as int);
                }
            },
            None => {
                let mut b = zero();
                fold_label(&mut b, label);
                let p = insert_point(&out, class);
                out.insert(p, (owned(class), b));
                proof {
                    assert(per_class_view(out@) =~= pv.insert(p as int, (class@, b)));
                    lemma_tally_insert(pv, prev, rv[i as int], p as int);
                }
            },
        }
        i += 1;
    }
    assert(rv.take(rv.len() as int) =~= rv);
    out
}


/// Whether some case of `cases` selects the conversation `f`.
pub open spec fn any_case_selects(cases: Seq<Case>, f: ConversationFile) -> bool {
    exists|c: int| 0 <= c < cases.len() && selects(#[trigger] cases[c], f)
}

/// How many of the first `n` conversations some case selects: each
/// conversation counts once, however many cases select it.
pub open spec fn matched_count(cases: Seq<Case>, files: Seq<ConversationFile>, n: int) -> nat
    decreases n,
{
    if n <= 0 {
        0
    } else {
        matched_count(cases, files, n - 1) + if any_case_selects(cases, files[n - 1]) { 1nat } else { 0nat }
    }
}

fn selected_by_any(cases: &Vec<Case>, f: &ConversationFile) -> (r: bool)
    ensures
        r == any_case_selects(cases@, *f),
{
    let mut c: usize = 0;
    while c < cases.len()
        invariant
            c <= cases@.len(),
            forall|k: int| 0 <= k < c ==> !selects(#[trigger] cases@[k], *f),
        decreases cases.len() - c,
    {
        if case_selects(&cases[c], f) {
            return true;
        }
        c += 1;
    }
    false
}

/// The number of conversations that at least one case selects.
fn count_matched(cases: &Vec<Case>, files: &Vec<ConversationFile>) -> (r: usize)
    ensures
        r == matched_count(cases@, files@, files@.len() as int),
{
    let mut count: usize = 0;
    let mut j: usize = 0;
    while j < files.len()
        invariant
            j <= files@.len(),
            count <= j,
            count == matched_count(cases@, files@, j as int),
        decreases files.len() - j,
    {
        if selected_by_any(cases, &files[j]) {
            count += 1;
        }
        j += 1;
    }
    count
}

/// Runs every case of the suite against the conversations it selects and
/// assembles the report:
/// - a case named `n` selects the conversations whose file stem is `n`; when
///   it selects none, its report holds one `malformed` record of class
///   `missing_conversation`;
/// - an unnamed case with `when:` bindings selects the conversations whose
///   bindings include them; one without selects every conversation;
/// - each selected conversation gets one record per assertion, in order;
/// - `conversations_matched` counts the conversations that at least one
///   case selects, each once;
/// - the totals tally every record, and `per_class` tallies them by class.
/// Judge assertions are deferred here: no model is wired.
pub fn evaluate(args: EvalArgs) -> (r: EvalReport)
    ensures
        r.suite@ == args.suite_name@,
        r.run_id@ == args.run_id@,
        cases_view(r.cases@) == args.suite.cases@.map_values(
            |c: Case| case_spec(c, args.conversations@, ranks_view(*args.numbers)),
        ),
        r.totals.conversations_matched == matched_count(
            args.suite.cases@,
            args.conversations@,
            args.conversations@.len() as int,
        ),
        r.totals.assertions == tally(all_records(cases_view(r.cases@))),
        class_tallies_ok(per_class_view(r.per_class@), all_records(cases_view(r.cases@))),
        match run_model(args.conversations@) {
            Some(m) => r.model matches Some(s) && s@ == m,
            None => r.model is None,
        },
        r.metrics == run_metrics(args.conversations@),
{
    let suite = args.suite;
    let files = args.conversations;
    let ghost ranks = ranks_view(*args.numbers);
    let mut cases: Vec<CaseReport> = Vec::new();
    let mut i: usize = 0;
    while i < suite.cases.len()
        invariant
            i <= suite.cases@.len(),
            ranks == ranks_view(*args.numbers),
            cases@.len() == i,
            forall|t: int| 0 <= t < i ==> #[trigger] case_view(cases@[t]) == case_spec(suite.cases@[t], files@, ranks),
        decreases suite.cases.len() - i,
    {
        let report = case_report(&suite.cases[i], files, args.numbers, &args.ctx);
        cases.push(report);
        i += 1;
    }
    proof {
        assert(cases_view(cases@) =~= suite.cases@.map_values(|c: Case| case_spec(c, files@, ranks)));
    }
    let match_count = count_matched(&suite.cases, files);
    let flat = flat_records(&cases);
    let assertions = tally_records(&flat);
    let per_class = class_tallies(&flat);
    let (model, metrics) = collect_run_metrics(files);
    EvalReport {
        suite: owned(args.suite_name),
        run_id: owned(args.run_id),
        model,
        metrics,
        totals: ReportTotals { conversations_matched: match_count, assertions },
        per_class,
        cases,
    }
}


/// Whether `label` names one of the five verdicts.
pub open spec fn is_verdict_label(label: Seq<char>) -> bool {
    label == "pass"@ || label == "fail"@ || label == "deferred"@ || label == "malformed"@ || label == "errored"@
}

/// How many records carry one of the five verdict labels.
pub open spec fn verdict_count(records: Seq<RecordView>) -> nat
    decreases records.len(),
{
    if records.len() == 0 {
        0
    } else {
        verdict_count(records.drop_last()) + if is_verdict_label(records.last().1) { 1nat } else { 0nat }
    }
}

proof fn lemma_verdict_count_le(records: Seq<RecordView>)
    ensures
        verdict_count(records) <= records.len(),
    decreases records.len(),
{
    if records.len() > 0 {
        lemma_verdict_count_le(records.drop_last());
    }
}

/// The five buckets of a tally add up to the number of records that carry
/// a verdict label, for fewer than `usize::MAX` records: every verdict is
/// counted once, in its own bucket.
pub proof fn lemma_tally_adds_up(records: Seq<RecordView>)
    requires
        records.len() < usize::MAX,
    ensures
        tally(records).passed + tally(records).failed + tally(records).deferred + tally(records).malformed
            + tally(records).errored == verdict_count(records),
    decreases records.len(),
{
    reveal(add_label);
    if records.len() > 0 {
        lemma_tally_adds_up(records.drop_last());
        lemma_verdict_count_le(records.drop_last());
    }
}

/// A `when:` case selects a conversation exactly when every one of its
/// bindings, not only the first, is bound in the conversation to an equal
/// value.
pub proof fn lemma_when_case_checks_every_binding(case: Case, f: ConversationFile)
    requires
        case.name is None,
        binding_view(case.when).len() > 0,
    ensures
        selects(case, f) <==> forall|i: int| 0 <= i < binding_view(case.when).len() ==> lookup_binding(
            binding_view(f.conversation.meta.binding),
            #[trigger] binding_view(case.when)[i].0,
        ) == Some(binding_view(case.when)[i].1),
{
}

/// One binding the conversation does not hold, wherever it stands in
/// `when:`, keeps the case from selecting it.
pub proof fn lemma_unheld_binding_deselects(haystack: Seq<(Seq<char>, YamlView)>, needle: Seq<(Seq<char>, YamlView)>, i: int)
    requires
        0 <= i < needle.len(),
        lookup_binding(haystack, needle[i].0) != Some(needle[i].1),
    ensures
        !binding_contains_spec(haystack, needle),
{
}

/// Whether a conversation's binding holds a `when:` list does not depend
/// on the order of the list, nor on repeats in it.
pub proof fn lemma_binding_contains_order_free(
    haystack: Seq<(Seq<char>, YamlView)>,
    n1: Seq<(Seq<char>, YamlView)>,
    n2: Seq<(Seq<char>, YamlView)>,
)
    requires
        forall|e: (Seq<char>, YamlView)| n1.contains(e) <==> n2.contains(e),
    ensures
        binding_contains_spec(haystack, n1) == binding_contains_spec(haystack, n2),
{
    if binding_contains_spec(haystack, n1) {
        assert forall|j: int| 0 <= j < n2.len() implies lookup_binding(haystack, #[trigger] n2[j].0) == Some(n2[j].1) by {
            assert(n2.contains(n2[j]));
            let i = choose|i: int| 0 <= i < n1.len() && n1[i] == n2[j];
            assert(lookup_binding(haystack, n1[i].0) == Some(n1[i].1));
        }
    }
    if binding_contains_spec(haystack, n2) {
        assert forall|j: int| 0 <= j < n1.len() implies lookup_binding(haystack, #[trigger] n1[j].0) == Some(n1[j].1) by {
            assert(n1.contains(n1[j]));
            let i = choose|i: int| 0 <= i < n2.len() && n2[i] == n1[j];
            assert(lookup_binding(haystack, n2[i].0) == Some(n2[i].1));
        }
    }
}

/// Dropping a binding from `when:` can only widen what the case selects.
pub proof fn lemma_fewer_bindings_select_more(
    haystack: Seq<(Seq<char>, YamlView)>,
    needle: Seq<(Seq<char>, YamlView)>,
    i: int,
)
    requires
        0 <= i < needle.len(),
        binding_contains_spec(haystack, needle),
    ensures
        binding_contains_spec(haystack, needle.remove(i)),
{
    assert forall|j: int| 0 <= j < needle.remove(i).len() implies lookup_binding(
        haystack,
        #[trigger] needle.remove(i)[j].0,
    ) == Some(needle.remove(i)[j].1) by {
        if j < i {
            assert(needle.remove(i)[j] == needle[j]);
            assert(lookup_binding(haystack, needle[j].0) == Some(needle[j].1));
        } else {
            assert(needle.remove(i)[j] == needle[j + 1]);
            assert(lookup_binding(haystack, needle[j + 1].0) == Some(needle[j + 1].1));
        }
    }
}

} // verus!
