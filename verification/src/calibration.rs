//! Judge calibration: folding the report of a calibration suite (one case
//! per human-labelled example) against the human labels into agreement
//! counts.
use vstd::prelude::*;

use crate::eval::{case_view, cases_view, CaseReport, EvalReport, RecordView};
use crate::text::{dec, push_decimal_usize, push_str, str_eq};

verus! {

/// Ground truth for one example.
#[derive(Debug, Clone, Copy, PartialEq, Eq, Structural)]
pub enum HumanVerdict {
    Pass,
    Fail,
}

/// How one example's judge outcome relates to its human label.
#[derive(Debug, Clone, Copy, PartialEq, Eq, Structural)]
pub enum Agreement {
    Agree,
    Disagree,
    /// The judge call failed or never ran; left out of the rate.
    Excluded,
}

/// One example, folded.
#[derive(Debug, Clone, PartialEq, Eq)]
pub struct ExampleAgreement {
    pub id: String,
    pub human_verdict: HumanVerdict,
    pub judge_outcome: String,
    pub reason: Option<String>,
    pub agreement: Agreement,
}

/// The counts of a calibration run. The agreement rate is
/// `agreements / considered`.
#[derive(Debug, Clone, PartialEq, Eq)]
pub struct CalibrationCounts {
    pub suite: String,
    pub run_id: String,
    pub total_examples: usize,
    pub excluded: usize,
    /// `total_examples - excluded`.
    pub considered: usize,
    pub agreements: usize,
    pub examples: Vec<ExampleAgreement>,
}

/// Lowest share of considered examples, in percent, on which the judge
/// must agree with the human labels to be trusted.
pub const JUDGE_CALIBRATION_BAR_PERCENT: u8 = 90;

impl CalibrationCounts {
    /// Whether the judge clears the bar: some example was considered, and
    /// it agreed on at least [`JUDGE_CALIBRATION_BAR_PERCENT`] percent of
    /// them.
    pub fn meets_bar(&self) -> (r: bool)
        ensures
            r == (self.considered > 0 && self.agreements * 100 >= self.considered * JUDGE_CALIBRATION_BAR_PERCENT),
    {
        let agreed: u128 = self.agreements as u128;
        let considered: u128 = self.considered as u128;
        considered > 0 && agreed * 100 >= considered * (JUDGE_CALIBRATION_BAR_PERCENT as u128)
    }
}

/// A calibration suite of the wrong shape.
#[derive(Debug, Clone, PartialEq, Eq)]
pub enum CalibrationError {
    /// A case matched no conversation.
    NoMatch { case: String },
    /// A case matched more than one conversation.
    MultipleMatches { case: String, count: usize },
    /// A case's match carried other than exactly one assertion.
    MultipleAssertions { case: String, count: usize },
    /// A case has no human label.
    MissingLabel { case: String },
}

/// The mathematical form of a [`CalibrationError`].
pub enum CalibrationErrorView {
    NoMatch(Seq<char>),
    MultipleMatches(Seq<char>, nat),
    MultipleAssertions(Seq<char>, nat),
    MissingLabel(Seq<char>),
}

/// The view of an error.
pub open spec fn error_view(e: CalibrationError) -> CalibrationErrorView {
    match e {
        CalibrationError::NoMatch { case } => CalibrationErrorView::NoMatch(case@),
        CalibrationError::MultipleMatches { case, count } => CalibrationErrorView::MultipleMatches(case@, count as nat),
        CalibrationError::MultipleAssertions { case, count } => CalibrationErrorView::MultipleAssertions(case@, count as nat),
        CalibrationError::MissingLabel { case } => CalibrationErrorView::MissingLabel(case@),
    }
}

/// The message of an error.
pub open spec fn error_message(e: CalibrationErrorView) -> Seq<char> {
    match e {
        CalibrationErrorView::NoMatch(c) => "calibration case "@ + crate::assertions::debug_quoted(c)
            + " matched no conversation"@,
        CalibrationErrorView::MultipleMatches(c, n) => "calibration case "@ + crate::assertions::debug_quoted(c)
            + " matched "@ + dec(n) + " conversations, expected exactly one"@,
        CalibrationErrorView::MultipleAssertions(c, n) => "calibration case "@ + crate::assertions::debug_quoted(c)
            + " carried "@ + dec(n) + " assertions, expected exactly one"@,
        CalibrationErrorView::MissingLabel(c) => "calibration case "@ + crate::assertions::debug_quoted(c)
            + " has no entry in the human-labeled set"@,
    }
}

impl CalibrationError {
    /// The error's message.
    pub fn message(&self) -> (r: String)
        ensures
            r@ == error_message(error_view(*self)),
    {
        let mut out = String::new();
        push_str(&mut out, "calibration case ");
        match self {
            CalibrationError::NoMatch { case } => {
                let q = crate::assertions::debug_quote(case.as_str());
                push_str(&mut out, q.as_str());
                push_str(&mut out, " matched no conversation");
            },
            CalibrationError::MultipleMatches { case, count } => {
                let q = crate::assertions::debug_quote(case.as_str());
                push_str(&mut out, q.as_str());
                push_str(&mut out, " matched ");
                push_decimal_usize(&mut out, *count);
                push_str(&mut out, " conversations, expected exactly one");
            },
            CalibrationError::MultipleAssertions { case, count } => {
                let q = crate::assertions::debug_quote(case.as_str());
                push_str(&mut out, q.as_str());
                push_str(&mut out, " carried ");
                push_decimal_usize(&mut out, *count);
                push_str(&mut out, " assertions, expected exactly one");
            },
            CalibrationError::MissingLabel { case } => {
                let q = crate::assertions::debug_quote(case.as_str());
                push_str(&mut out, q.as_str());
                push_str(&mut out, " has no entry in the human-labeled set");
            },
        }
        out
    }
}

/// Whether an outcome is left out of the rate: the judge errored or was deferred.
pub open spec fn excluded_outcome(outcome: Seq<char>) -> bool {
    outcome == "errored"@ || outcome == "deferred"@
}

/// How a judge outcome that is not left out relates to the human label.
pub open spec fn agreement_of(outcome: Seq<char>, human: HumanVerdict) -> Agreement {
    if (outcome == "pass"@ && human == HumanVerdict::Pass) || (outcome == "fail"@ && human == HumanVerdict::Fail) {
        Agreement::Agree
    } else {
        Agreement::Disagree
    }
}

/// Whether `outcome` is `errored` or `deferred`.
pub fn is_excluded_outcome(outcome: &str) -> (r: bool)
    ensures
        r == excluded_outcome(outcome@),
{
    str_eq(outcome, "errored") || str_eq(outcome, "deferred")
}

/// How `outcome` relates to `human_verdict`: `pass` agrees with a pass
/// label and `fail` with a fail label; anything else disagrees.
pub fn map_agreement(outcome: &str, human_verdict: HumanVerdict) -> (r: Agreement)
    ensures
        r == agreement_of(outcome@, human_verdict),
{
    let pass = str_eq(outcome, "pass");
    let fail = str_eq(outcome, "fail");
    if (pass && human_verdict == HumanVerdict::Pass) || (fail && human_verdict == HumanVerdict::Fail) {
        Agreement::Agree
    } else {
        Agreement::Disagree
    }
}

/// The identifier of case `index`: its name, or `case-<index>`.
pub open spec fn case_id(name: Option<Seq<char>>, index: nat) -> Seq<char> {
    match name {
        Some(n) => n,
        None => "case-"@ + dec(index),
    }
}

/// The identifier of case `index` (see [`case_id`]).
pub fn case_identifier(case: &CaseReport, index: usize) -> (r: String)
    ensures
        r@ == case_id(case_view(*case).0, index as nat),
{
    match &case.name {
        Some(n) => n.clone(),
        None => {
            let mut out = String::new();
            push_str(&mut out, "case-");
            push_decimal_usize(&mut out, index);
            out
        },
    }
}

/// The label of the first entry for `id`.
pub open spec fn label_of(labels: Seq<(Seq<char>, HumanVerdict)>, id: Seq<char>) -> Option<HumanVerdict>
    decreases labels.len(),
{
    if labels.len() == 0 {
        None
    } else if labels[0].0 == id {
        Some(labels[0].1)
    } else {
        label_of(labels.drop_first(), id)
    }
}

/// The labels as plain values.
pub open spec fn labels_view(labels: Seq<(String, HumanVerdict)>) -> Seq<(Seq<char>, HumanVerdict)> {
    labels.map_values(|e: (String, HumanVerdict)| (e.0@, e.1))
}

/// What is wrong with case `index`, if anything.
pub open spec fn case_problem(
    c: (Option<Seq<char>>, Seq<(Seq<char>, Seq<RecordView>)>),
    index: nat,
    labels: Seq<(Seq<char>, HumanVerdict)>,
) -> Option<CalibrationErrorView> {
    let id = case_id(c.0, index);
    if c.1.len() == 0 {
        Some(CalibrationErrorView::NoMatch(id))
    } else if c.1.len() > 1 {
        Some(CalibrationErrorView::MultipleMatches(id, c.1.len()))
    } else if c.1[0].1.len() != 1 {
        Some(CalibrationErrorView::MultipleAssertions(id, c.1[0].1.len()))
    } else if label_of(labels, id) is None {
        Some(CalibrationErrorView::MissingLabel(id))
    } else {
        None
    }
}

/// The problem of the first case among the first `n` that has one.
pub open spec fn first_problem(
    cv: Seq<(Option<Seq<char>>, Seq<(Seq<char>, Seq<RecordView>)>)>,
    labels: Seq<(Seq<char>, HumanVerdict)>,
    n: int,
) -> Option<CalibrationErrorView>
    decreases n,
{
    if n <= 0 {
        None
    } else {
        match first_problem(cv, labels, n - 1) {
            Some(e) => Some(e),
            None => case_problem(cv[n - 1], (n - 1) as nat, labels),
        }
    }
}

/// The view of a folded example.
pub type ExampleView = (Seq<char>, HumanVerdict, Seq<char>, Option<Seq<char>>, Agreement);

/// The view of an example.
pub open spec fn example_view(e: ExampleAgreement) -> ExampleView {
    (
        e.id@,
        e.human_verdict,
        e.judge_outcome@,
        match e.reason { Some(r) => Some(r@), None => None },
        e.agreement,
    )
}

/// The folded example of a well-shaped case `index`.
pub open spec fn example_spec(
    c: (Option<Seq<char>>, Seq<(Seq<char>, Seq<RecordView>)>),
    index: nat,
    labels: Seq<(Seq<char>, HumanVerdict)>,
) -> ExampleView {
    let id = case_id(c.0, index);
    let rec = c.1[0].1[0];
    let human = label_of(labels, id)->0;
    (
        id,
        human,
        rec.1,
        rec.2,
        if excluded_outcome(rec.1) { Agreement::Excluded } else { agreement_of(rec.1, human) },
    )
}

/// Number of examples with agreement `a`.
pub open spec fn count_agreement(examples: Seq<ExampleView>, a: Agreement) -> nat
    decreases examples.len(),
{
    if examples.len() == 0 {
        0
    } else {
        count_agreement(examples.drop_last(), a) + if examples.last().4 == a { 1nat } else { 0nat }
    }
}


proof fn lemma_first_problem_stays(
    cv: Seq<(Option<Seq<char>>, Seq<(Seq<char>, Seq<RecordView>)>)>,
    labels: Seq<(Seq<char>, HumanVerdict)>,
    n: int,
    m: int,
)
    requires
        0 <= n <= m,
        first_problem(cv, labels, n) is Some,
    ensures
        first_problem(cv, labels, m) == first_problem(cv, labels, n),
    decreases m - n,
{
    if m > n {
        lemma_first_problem_stays(cv, labels, n, m - 1);
    }
}

fn find_label(labels: &Vec<(String, HumanVerdict)>, id: &str) -> (r: Option<HumanVerdict>)
    ensures
        r == label_of(labels_view(labels@), id@),
{
    let ghost lv = labels_view(labels@);
    let mut i: usize = 0;
    assert(lv.skip(0) =~= lv);
    while i < labels.len()
        invariant
            i <= labels@.len(),
            lv == labels_view(labels@),
            label_of(lv, id@) == label_of(lv.skip(i as int), id@),
        decreases labels.len() - i,
    {
        let ghost rest = lv.skip(i as int);
        assert(rest[0] == lv[i as int]);
        if str_eq(labels[i].0.as_str(), id) {
            return Some(labels[i].1);
        }
        assert(rest.drop_first() =~= lv.skip(i + 1));
        i += 1;
    }
    None
}

/// The views of the folded examples.
pub open spec fn examples_view(e: Seq<ExampleAgreement>) -> Seq<ExampleView> {
    e.map_values(|x: ExampleAgreement| example_view(x))
}

/// Folds the report of a calibration suite against the human labels:
/// every case must have matched exactly one conversation with exactly one
/// assertion, and its identifier must be labelled; the first case that is
/// not so gives the error. Otherwise each case becomes an example, and the
/// counts tally the excluded and agreeing ones.
pub fn compute_calibration(report: &EvalReport, labels: &Vec<(String, HumanVerdict)>) -> (r: Result<CalibrationCounts, CalibrationError>)
    ensures
        match first_problem(cases_view(report.cases@), labels_view(labels@), report.cases@.len() as int) {
            Some(e) => r matches Err(x) && error_view(x) == e,
            None => r matches Ok(c) && {
                let ex = examples_view(c.examples@);
                &&& c.suite@ == report.suite@
                &&& c.run_id@ == report.run_id@
                &&& ex.len() == report.cases@.len()
                &&& forall|i: int| 0 <= i < ex.len() ==> #[trigger] ex[i] == example_spec(
                    cases_view(report.cases@)[i],
                    i as nat,
                    labels_view(labels@),
                )
                &&& c.total_examples == ex.len()
                &&& c.excluded == count_agreement(ex, Agreement::Excluded)
                &&& c.agreements == count_agreement(ex, Agreement::Agree)
                &&& c.considered == c.total_examples - c.excluded
            },
        },
{
    let ghost cv = cases_view(report.cases@);
    let ghost lv = labels_view(labels@);
    let mut examples: Vec<ExampleAgreement> = Vec::new();
    let mut excluded: usize = 0;
    let mut agreements: usize = 0;
    let mut i: usize = 0;
    while i < report.cases.len()
        invariant
            i <= report.cases@.len(),
            cv == cases_view(report.cases@),
            lv == labels_view(labels@),
            first_problem(cv, lv, i as int) is None,
            examples@.len() == i,
            forall|t: int| 0 <= t < i ==> #[trigger] examples_view(examples@)[t] == example_spec(cv[t], t as nat, lv),
            excluded == count_agreement(examples_view(examples@), Agreement::Excluded),
            agreements == count_agreement(examples_view(examples@), Agreement::Agree),
            excluded <= i,
            agreements <= i,
        decreases report.cases.len() - i,
    {
        let case = &report.cases[i];
        assert(cv[i as int] == case_view(*case));
        let id = case_identifier(case, i);
        proof {
            assert(cv[i as int].1.len() == case.matches@.len());
            if case_problem(cv[i as int], i as nat, lv) is Some {
                assert(first_problem(cv, lv, i + 1) == case_problem(cv[i as int], i as nat, lv));
                lemma_first_problem_stays(cv, lv, i + 1, cv.len() as int);
            }
        }
        if case.matches.len() != 1 {
            if case.matches.len() == 0 {
                return Err(CalibrationError::NoMatch { case: id });
            }
            return Err(CalibrationError::MultipleMatches { case: id, count: case.matches.len() });
        }
        let m = &case.matches[0];
        assert(cv[i as int].1[0] == crate::eval::match_view(*m));
        if m.assertions.len() != 1 {
            return Err(CalibrationError::MultipleAssertions { case: id, count: m.assertions.len() });
        }
        let human = match find_label(labels, id.as_str()) {
            Some(h) => h,
            None => {
                return Err(CalibrationError::MissingLabel { case: id });
            },
        };
        let a = &m.assertions[0];
        assert(cv[i as int].1[0].1[0] == crate::eval::record_view(*a));
        let agreement = if is_excluded_outcome(a.outcome.as_str()) {
            excluded += 1;
            Agreement::Excluded
        } else {
            let g = map_agreement(a.outcome.as_str(), human);
            if g == Agreement::Agree {
                agreements += 1;
            }
            g
        };
        let reason = match &a.reason { Some(r) => Some(r.clone()), None => None };
        let e = ExampleAgreement { id, human_verdict: human, judge_outcome: a.outcome.clone(), reason, agreement };
        let ghost before = examples_view(examples@);
        examples.push(e);
        proof {
            let after = examples_view(examples@);
            assert(after =~= before.push(example_view(e)));
            assert(after.drop_last() =~= before);
            assert(example_view(e) == example_spec(cv[i as int], i as nat, lv));
        }
        i += 1;
    }
    let total = examples.len();
    Ok(CalibrationCounts {
        suite: report.suite.clone(),
        run_id: report.run_id.clone(),
        total_examples: total,
        excluded,
        considered: total - excluded,
        agreements,
        examples,
    })
}

/// The human verdict opposite to `h`.
pub open spec fn other_verdict(h: HumanVerdict) -> HumanVerdict {
    match h {
        HumanVerdict::Pass => HumanVerdict::Fail,
        HumanVerdict::Fail => HumanVerdict::Pass,
    }
}

/// The judge outcome that names `h`: `pass` for a pass label, `fail` for a
/// fail label.
pub open spec fn verdict_outcome(h: HumanVerdict) -> Seq<char> {
    match h {
        HumanVerdict::Pass => "pass"@,
        HumanVerdict::Fail => "fail"@,
    }
}

/// A judge that returns the verdict the human gave agrees with the human,
/// and one that returns the opposite verdict disagrees, for either label:
/// pass and fail are treated alike.
pub proof fn lemma_agreement_matches_verdicts(h: HumanVerdict)
    ensures
        agreement_of(verdict_outcome(h), h) == Agreement::Agree,
        agreement_of(verdict_outcome(other_verdict(h)), h) == Agreement::Disagree,
{
    reveal_strlit("pass");
    reveal_strlit("fail");
    assert("pass"@ != "fail"@) by {
        assert("pass"@[0] != "fail"@[0]);
    }
}

/// Only a `pass` or `fail` outcome can agree with a human label, and it
/// agrees with exactly one of the two labels.
pub proof fn lemma_agreement_one_label(outcome: Seq<char>)
    ensures
        agreement_of(outcome, HumanVerdict::Pass) == Agreement::Agree || agreement_of(outcome, HumanVerdict::Fail)
            == Agreement::Agree ==> outcome == "pass"@ || outcome == "fail"@,
        outcome == "pass"@ || outcome == "fail"@ ==> (agreement_of(outcome, HumanVerdict::Pass) == Agreement::Agree)
            != (agreement_of(outcome, HumanVerdict::Fail) == Agreement::Agree),
{
    reveal_strlit("pass");
    reveal_strlit("fail");
    assert("pass"@ != "fail"@) by {
        assert("pass"@[0] != "fail"@[0]);
    }
}

} // verus!
