//! Comparing two evaluation runs, and rendering reports as markdown.
use vstd::prelude::*;

use crate::eval::{
    case_view, cases_view, AssertionReport, CaseReport, EvalReport, MatchReport, RecordView,
};
use crate::text::{dec, push_decimal_usize, push_str, seq_lt, str_eq, str_lt};

verus! {

/// Identifies one run.
#[derive(Debug, Clone, PartialEq, Eq)]
pub struct ArmRef {
    pub run_id: String,
}

/// How many paired assertions changed, and how.
#[derive(Debug, Clone, Copy, PartialEq, Eq, Structural)]
pub struct ComparisonTotals {
    pub improved: usize,
    pub regressed: usize,
    pub unchanged_pass: usize,
    pub unchanged_fail: usize,
    pub total_assertions: usize,
}

/// One paired assertion: its class, the change, and the outcome in each run.
#[derive(Debug, Clone, PartialEq, Eq)]
pub struct AssertionComparison {
    pub class: String,
    pub change: String,
    pub arm_a: String,
    pub arm_b: String,
}

/// The paired assertions of one named case.
#[derive(Debug, Clone, PartialEq, Eq)]
pub struct CaseComparison {
    pub case: String,
    pub assertions: Vec<AssertionComparison>,
}

/// The comparison of run `arm_b` against run `arm_a`.
#[derive(Debug, Clone, PartialEq, Eq)]
pub struct ComparisonReport {
    pub arm_a: ArmRef,
    pub arm_b: ArmRef,
    pub totals: ComparisonTotals,
    pub cases: Vec<CaseComparison>,
}

/// A record with its key: case name, conversation, class, and outcome.
pub type KeyedRecord = (Option<Seq<char>>, Seq<char>, Seq<char>, Seq<char>);

/// The records of one match, keyed.
pub open spec fn keyed_match(name: Option<Seq<char>>, m: (Seq<char>, Seq<RecordView>)) -> Seq<KeyedRecord> {
    m.1.map_values(|r: RecordView| (name, m.0, r.0, r.1))
}

/// The records of a case's matches, keyed, in order.
pub open spec fn keyed_matches(name: Option<Seq<char>>, ms: Seq<(Seq<char>, Seq<RecordView>)>) -> Seq<KeyedRecord>
    decreases ms.len(),
{
    if ms.len() == 0 {
        Seq::empty()
    } else {
        keyed_matches(name, ms.drop_last()) + keyed_match(name, ms.last())
    }
}

/// Every record of a report, keyed, in order.
pub open spec fn keyed_all(cv: Seq<(Option<Seq<char>>, Seq<(Seq<char>, Seq<RecordView>)>)>) -> Seq<KeyedRecord>
    decreases cv.len(),
{
    if cv.len() == 0 {
        Seq::empty()
    } else {
        keyed_all(cv.drop_last()) + keyed_matches(cv.last().0, cv.last().1)
    }
}

/// The outcome of the last record with the key of `r`.
pub open spec fn last_outcome(recs: Seq<KeyedRecord>, r: KeyedRecord) -> Option<Seq<char>>
    decreases recs.len(),
{
    if recs.len() == 0 {
        None
    } else if recs.last().0 == r.0 && recs.last().1 == r.1 && recs.last().2 == r.2 {
        Some(recs.last().3)
    } else {
        last_outcome(recs.drop_last(), r)
    }
}

/// Whether an outcome is a decided one.
pub open spec fn decided(o: Seq<char>) -> bool {
    o == "pass"@ || o == "fail"@
}

/// The change from outcome `a` to outcome `b`.
pub open spec fn change_of(a: Seq<char>, b: Seq<char>) -> Seq<char> {
    if a == "fail"@ && b == "pass"@ {
        "Improved"@
    } else if a == "pass"@ && b == "fail"@ {
        "Regressed"@
    } else if a == "pass"@ && b == "pass"@ {
        "UnchangedPass"@
    } else {
        "UnchangedFail"@
    }
}

/// A paired assertion as plain values: class, change, outcome in each run.
pub type ComparisonView = (Seq<char>, Seq<char>, Seq<char>, Seq<char>);

/// The pairings of `b_recs` against `a_recs`, in order, each with its case
/// name: records of named cases decided in both runs.
pub open spec fn pairings(b_recs: Seq<KeyedRecord>, a_recs: Seq<KeyedRecord>) -> Seq<(Seq<char>, ComparisonView)>
    decreases b_recs.len(),
{
    if b_recs.len() == 0 {
        Seq::empty()
    } else {
        let p = pairings(b_recs.drop_last(), a_recs);
        let r = b_recs.last();
        match (r.0, last_outcome(a_recs, r)) {
            (Some(name), Some(ao)) => if decided(r.3) && decided(ao) {
                p.push((name, (r.2, change_of(ao, r.3), ao, r.3)))
            } else {
                p
            },
            _ => p,
        }
    }
}

/// `n + 1`, held at `usize::MAX`.
pub open spec fn bump(n: usize) -> usize {
    if n < usize::MAX { (n + 1) as usize } else { n }
}

/// The totals of a sequence of pairings.
pub open spec fn comparison_totals(ps: Seq<(Seq<char>, ComparisonView)>) -> ComparisonTotals
    decreases ps.len(),
{
    if ps.len() == 0 {
        ComparisonTotals { improved: 0, regressed: 0, unchanged_pass: 0, unchanged_fail: 0, total_assertions: 0 }
    } else {
        let t = comparison_totals(ps.drop_last());
        let c = ps.last().1.1;
        let t2 = if c == "Improved"@ {
            ComparisonTotals { improved: bump(t.improved), ..t }
        } else if c == "Regressed"@ {
            ComparisonTotals { regressed: bump(t.regressed), ..t }
        } else if c == "UnchangedPass"@ {
            ComparisonTotals { unchanged_pass: bump(t.unchanged_pass), ..t }
        } else {
            ComparisonTotals { unchanged_fail: bump(t.unchanged_fail), ..t }
        };
        ComparisonTotals { total_assertions: bump(t.total_assertions), ..t2 }
    }
}

/// The pairings of case `name`, in order.
pub open spec fn entries_of(ps: Seq<(Seq<char>, ComparisonView)>, name: Seq<char>) -> Seq<ComparisonView>
    decreases ps.len(),
{
    if ps.len() == 0 {
        Seq::empty()
    } else if ps.last().0 == name {
        entries_of(ps.drop_last(), name).push(ps.last().1)
    } else {
        entries_of(ps.drop_last(), name)
    }
}

/// The view of a paired assertion.
pub open spec fn comparison_view(a: AssertionComparison) -> ComparisonView {
    (a.class@, a.change@, a.arm_a@, a.arm_b@)
}

/// The view of a case comparison.
pub open spec fn case_comparison_view(c: CaseComparison) -> (Seq<char>, Seq<ComparisonView>) {
    (c.case@, c.assertions@.map_values(|a: AssertionComparison| comparison_view(a)))
}

/// The grouping of pairings by case: one group per case name, sorted by
/// name, each holding that case's pairings in order.
pub open spec fn grouped(groups: Seq<(Seq<char>, Seq<ComparisonView>)>, ps: Seq<(Seq<char>, ComparisonView)>) -> bool {
    &&& forall|i: int, j: int| 0 <= i < j < groups.len() ==> seq_lt(groups[i].0, groups[j].0)
    &&& forall|i: int| 0 <= i < groups.len() ==> #[trigger] groups[i].1 == entries_of(ps, groups[i].0)
    &&& forall|i: int| 0 <= i < groups.len() ==> #[trigger] groups[i].1.len() > 0
    &&& forall|k: int| 0 <= k < ps.len() ==> group_names(groups).contains(#[trigger] ps[k].0)
}

/// The case names of the groups.
pub open spec fn group_names(groups: Seq<(Seq<char>, Seq<ComparisonView>)>) -> Seq<Seq<char>> {
    groups.map_values(|g: (Seq<char>, Seq<ComparisonView>)| g.0)
}


/// The key and outcome of a flattened record.
pub open spec fn keyed_view(t: (&CaseReport, &MatchReport, &AssertionReport)) -> KeyedRecord {
    (
        match t.0.name { Some(n) => Some(n@), None => None },
        t.1.conversation@,
        t.2.class@,
        t.2.outcome@,
    )
}

/// The keyed views of flattened records.
pub open spec fn keyed_views(v: Seq<(&CaseReport, &MatchReport, &AssertionReport)>) -> Seq<KeyedRecord> {
    v.map_values(|t: (&CaseReport, &MatchReport, &AssertionReport)| keyed_view(t))
}

fn keyed_flat(cases: &Vec<CaseReport>) -> (r: Vec<(&CaseReport, &MatchReport, &AssertionReport)>)
    ensures
        keyed_views(r@) == keyed_all(cases_view(cases@)),
{
    let ghost cv = cases_view(cases@);
    let mut out: Vec<(&CaseReport, &MatchReport, &AssertionReport)> = Vec::new();
    let mut i: usize = 0;
    while i < cases.len()
        invariant
            i <= cases@.len(),
            cv == cases_view(cases@),
            keyed_views(out@) == keyed_all(cv.take(i as int)),
        decreases cases.len() - i,
    {
        let c = &cases[i];
        let ghost base = keyed_all(cv.take(i as int));
        let ghost name = cv[i as int].0;
        let ghost mv = cv[i as int].1;
        assert(cv[i as int] == case_view(*c));
        let mut j: usize = 0;
        while j < c.matches.len()
            invariant
                j <= c.matches@.len(),
                cv[i as int] == case_view(*c),
                name == cv[i as int].0,
                mv == cv[i as int].1,
                keyed_views(out@) == base + keyed_matches(name, mv.take(j as int)),
            decreases c.matches.len() - j,
        {
            let m = &c.matches[j];
            let ghost before = keyed_views(out@);
            let ghost rv = mv[j as int].1;
            assert(mv[j as int] == crate::eval::match_view(*m));
            let mut t: usize = 0;
            while t < m.assertions.len()
                invariant
                    t <= m.assertions@.len(),
                    mv[j as int] == crate::eval::match_view(*m),
                    name == case_view(*c).0,
                    rv == mv[j as int].1,
                    keyed_views(out@) == before + keyed_match(name, mv[j as int]).take(t as int),
                decreases m.assertions.len() - t,
            {
                let ghost o = out@;
                out.push((c, m, &m.assertions[t]));
                proof {
                    assert(keyed_views(out@) =~= keyed_views(o).push(keyed_view((c, m, &m.assertions@[t as int]))));
                    assert(keyed_match(name, mv[j as int])[t as int] == keyed_view((c, m, &m.assertions@[t as int])));
                    assert(before + keyed_match(name, mv[j as int]).take(t + 1) =~= (before + keyed_match(
                        name,
                        mv[j as int],
                    ).take(t as int)).push(keyed_match(name, mv[j as int])[t as int]));
                }
                t += 1;
            }
            proof {
                let km = keyed_match(name, mv[j as int]);
                assert(km.take(km.len() as int) =~= km);
                assert(mv.take(j + 1).drop_last() =~= mv.take(j as int));
                assert(mv.take(j + 1).last() == mv[j as int]);
            }
            j += 1;
        }
        proof {
            assert(mv.take(mv.len() as int) =~= mv);
            assert(cv.take(i + 1).drop_last() =~= cv.take(i as int));
            assert(cv.take(i + 1).last() == cv[i as int]);
        }
        i += 1;
    }
    assert(cv.take(cv.len() as int) =~= cv);
    out
}

fn opt_str_eq(a: &Option<String>, b: &Option<String>) -> (r: bool)
    ensures
        r == ((match *a { Some(x) => Some(x@), None => None::<Seq<char>> }) == (match *b {
            Some(x) => Some(x@),
            None => None::<Seq<char>>,
        })),
{
    match (a, b) {
        (Some(x), Some(y)) => str_eq(x.as_str(), y.as_str()),
        (None, None) => true,
        _ => false,
    }
}

fn find_last<'a>(recs: &Vec<(&'a CaseReport, &'a MatchReport, &'a AssertionReport)>, key: (&CaseReport, &MatchReport, &AssertionReport)) -> (r: Option<&'a String>)
    ensures
        match last_outcome(keyed_views(recs@), keyed_view(key)) {
            Some(o) => r matches Some(s) && s@ == o,
            None => r is None,
        },
{
    let ghost kv = keyed_views(recs@);
    let mut i: usize = recs.len();
    assert(kv.take(i as int) =~= kv);
    while i > 0
        invariant
            i <= recs@.len(),
            kv == keyed_views(recs@),
            last_outcome(kv, keyed_view(key)) == last_outcome(kv.take(i as int), keyed_view(key)),
        decreases i,
    {
        let r = recs[i - 1];
        proof {
            assert(kv.take(i as int).last() == keyed_view(r));
            assert(kv.take(i as int).drop_last() =~= kv.take(i - 1));
        }
        if opt_str_eq(&r.0.name, &key.0.name) && str_eq(r.1.conversation.as_str(), key.1.conversation.as_str())
            && str_eq(r.2.class.as_str(), key.2.class.as_str()) {
            return Some(&r.2.outcome);
        }
        i -= 1;
    }
    None
}

fn owned(s: &str) -> (r: String)
    ensures
        r@ == s@,
{
    s.to_owned()
}

fn change_text(a: &str, b: &str) -> (r: &'static str)
    ensures
        r@ == change_of(a@, b@),
{
    if str_eq(a, "fail") && str_eq(b, "pass") {
        "Improved"
    } else if str_eq(a, "pass") && str_eq(b, "fail") {
        "Regressed"
    } else if str_eq(a, "pass") && str_eq(b, "pass") {
        "UnchangedPass"
    } else {
        "UnchangedFail"
    }
}

/// The view of a built pairing.
pub open spec fn pairing_view(p: (String, AssertionComparison)) -> (Seq<char>, ComparisonView) {
    (p.0@, comparison_view(p.1))
}

fn bump_count(n: usize) -> (r: usize)
    ensures
        r == bump(n),
{
    if n < usize::MAX { n + 1 } else { n }
}

fn count_change(t: &mut ComparisonTotals, change: &str)
    ensures
        *final(t) == ({
            let c = change@;
            let t0 = *old(t);
            let t2 = if c == "Improved"@ {
                ComparisonTotals { improved: bump(t0.improved), ..t0 }
            } else if c == "Regressed"@ {
                ComparisonTotals { regressed: bump(t0.regressed), ..t0 }
            } else if c == "UnchangedPass"@ {
                ComparisonTotals { unchanged_pass: bump(t0.unchanged_pass), ..t0 }
            } else {
                ComparisonTotals { unchanged_fail: bump(t0.unchanged_fail), ..t0 }
            };
            ComparisonTotals { total_assertions: bump(t0.total_assertions), ..t2 }
        }),
{
    if str_eq(change, "Improved") {
        t.improved = bump_count(t.improved);
    } else if str_eq(change, "Regressed") {
        t.regressed = bump_count(t.regressed);
    } else if str_eq(change, "UnchangedPass") {
        t.unchanged_pass = bump_count(t.unchanged_pass);
    } else {
        t.unchanged_fail = bump_count(t.unchanged_fail);
    }
    t.total_assertions = bump_count(t.total_assertions);
}


proof fn lemma_entries_push(ps: Seq<(Seq<char>, ComparisonView)>, p: (Seq<char>, ComparisonView), n: Seq<char>)
    ensures
        entries_of(ps.push(p), n) == if p.0 == n { entries_of(ps, n).push(p.1) } else { entries_of(ps, n) },
{
    assert(ps.push(p).drop_last() =~= ps);
}

proof fn lemma_entries_absent(ps: Seq<(Seq<char>, ComparisonView)>, n: Seq<char>)
    requires
        forall|k: int| 0 <= k < ps.len() ==> ps[k].0 != n,
    ensures
        entries_of(ps, n) == Seq::<ComparisonView>::empty(),
    decreases ps.len(),
{
    if ps.len() > 0 {
        lemma_entries_absent(ps.drop_last(), n);
        assert(ps.last() == ps[ps.len() - 1]);
    }
}

/// The view of the built groups.
pub open spec fn groups_view(g: Seq<CaseComparison>) -> Seq<(Seq<char>, Seq<ComparisonView>)> {
    g.map_values(|c: CaseComparison| case_comparison_view(c))
}

fn copy_comparison(a: &AssertionComparison) -> (r: AssertionComparison)
    ensures
        comparison_view(r) == comparison_view(*a),
{
    AssertionComparison {
        class: owned(a.class.as_str()),
        change: owned(a.change.as_str()),
        arm_a: owned(a.arm_a.as_str()),
        arm_b: owned(a.arm_b.as_str()),
    }
}

fn find_group(groups: &Vec<CaseComparison>, name: &str) -> (r: Result<usize, usize>)
    requires
        forall|i: int, j: int| 0 <= i < j < groups@.len() ==> seq_lt(groups@[i].case@, groups@[j].case@),
    ensures
        match r {
            Ok(i) => i < groups@.len() && groups@[i as int].case@ == name@,
            Err(p) => p <= groups@.len() && (forall|i: int| 0 <= i < groups@.len() ==> groups@[i].case@ != name@)
                && (forall|i: int| 0 <= i < p ==> seq_lt(groups@[i].case@, name@))
                && (forall|i: int| p <= i < groups@.len() ==> seq_lt(name@, groups@[i].case@)),
        },
{
    let mut i: usize = 0;
    while i < groups.len()
        invariant
            i <= groups@.len(),
            forall|a: int, b: int| 0 <= a < b < groups@.len() ==> seq_lt(groups@[a].case@, groups@[b].case@),
            forall|a: int| 0 <= a < i ==> seq_lt(groups@[a].case@, name@),
        decreases groups.len() - i,
    {
        if str_eq(groups[i].case.as_str(), name) {
            return Ok(i);
        }
        if str_lt(name, groups[i].case.as_str()) {
            proof {
                assert forall|a: int| i <= a < groups@.len() implies seq_lt(name@, groups@[a].case@) by {
                    if a > i {
                        crate::text::lemma_seq_lt_trans(name@, groups@[i as int].case@, groups@[a].case@);
                    }
                }
                assert forall|a: int| 0 <= a < groups@.len() implies groups@[a].case@ != name@ by {
                    crate::text::lemma_seq_lt_total(name@, name@);
                }
            }
            return Err(i);
        }
        proof {
            crate::text::lemma_seq_lt_total(groups@[i as int].case@, name@);
        }
        i += 1;
    }
    proof {
        assert forall|a: int| 0 <= a < groups@.len() implies groups@[a].case@ != name@ by {
            crate::text::lemma_seq_lt_total(name@, name@);
        }
    }
    Err(i)
}

fn group_pairings(ps: &Vec<(String, AssertionComparison)>) -> (r: Vec<CaseComparison>)
    ensures
        grouped(groups_view(r@), ps@.map_values(|p: (String, AssertionComparison)| pairing_view(p))),
{
    let ghost pv = ps@.map_values(|p: (String, AssertionComparison)| pairing_view(p));
    let mut groups: Vec<CaseComparison> = Vec::new();
    let mut k: usize = 0;
    while k < ps.len()
        invariant
            k <= ps@.len(),
            pv == ps@.map_values(|p: (String, AssertionComparison)| pairing_view(p)),
            grouped(groups_view(groups@), pv.take(k as int)),
        decreases ps.len() - k,
    {
        let ghost prev = pv.take(k as int);
        let ghost gv = groups_view(groups@);
        let ghost item = pv[k as int];
        proof {
            assert(pv.take(k + 1) =~= prev.push(item));
            assert forall|i: int, j: int| 0 <= i < j < groups@.len() implies seq_lt(groups@[i].case@, groups@[j].case@) by {
                assert(gv[i].0 == groups@[i].case@);
                assert(gv[j].0 == groups@[j].case@);
            }
        }
        let name = ps[k].0.as_str();
        let entry = copy_comparison(&ps[k].1);
        assert(item == pairing_view(ps@[k as int]));
        assert(name@ == item.0 && comparison_view(entry) == item.1);
        let ghost old_groups = groups@;
        match find_group(&groups, name) {
            Ok(i) => {
                groups[i].assertions.push(entry);
                proof {
                    let nv = groups_view(groups@);
                    assert(groups@.len() == old_groups.len());
                    assert forall|x: int| 0 <= x < nv.len() && x != i implies nv[x] == gv[x] by {
                        assert(groups@[x] == old_groups[x]);
                    }
                    assert(groups@[i as int].case == old_groups[i as int].case);
                    assert(groups@[i as int].assertions@ == old_groups[i as int].assertions@.push(entry));
                    assert(nv[i as int].1 =~= gv[i as int].1.push(item.1));
                    assert(nv =~= gv.update(i as int, (gv[i as int].0, gv[i as int].1.push(item.1))));
                    assert(grouped(nv, prev.push(item))) by {
                        assert forall|x: int| 0 <= x < nv.len() implies #[trigger] nv[x].1 == entries_of(prev.push(item), nv[x].0) by {
                            lemma_entries_push(prev, item, nv[x].0);
                            if x != i {
                                assert(nv[x] == gv[x]);
                                assert(gv[x].0 != gv[i as int].0) by {
                                    if x < i {
                                        crate::text::lemma_seq_lt_total(gv[x].0, gv[i as int].0);
                                    } else {
                                        crate::text::lemma_seq_lt_total(gv[i as int].0, gv[x].0);
                                    }
                                }
                            }
                        }
                        assert(group_names(nv) =~= group_names(gv));
                        assert forall|q: int| 0 <= q < prev.push(item).len() implies group_names(nv).contains(#[trigger] prev.push(item)[q].0) by {
                            if q < prev.len() {
                                assert(prev.push(item)[q] == prev[q]);
                            } else {
                                assert(group_names(nv)[i as int] == item.0);
                            }
                        }
                    }
                }
            },
            Err(p) => {
                let mut assertions: Vec<AssertionComparison> = Vec::new();
                assertions.push(entry);
                let g = CaseComparison { case: owned(name), assertions };
                assert(case_comparison_view(g).1 =~= seq![item.1]);
                groups.insert(p, g);
                proof {
                    let nv = groups_view(groups@);
                    let newg = (item.0, seq![item.1]);
                    assert(groups@ == old_groups.insert(p as int, g));
                    assert(nv =~= gv.insert(p as int, newg));
                    assert forall|q: int| 0 <= q < prev.len() implies prev[q].0 != item.0 by {
                        assert(group_names(gv).contains(prev[q].0));
                        let x = choose|x: int| 0 <= x < group_names(gv).len() && group_names(gv)[x] == prev[q].0;
                        assert(gv[x].0 == old_groups[x].case@);
                    }
                    lemma_entries_absent(prev, item.0);
                    assert(grouped(nv, prev.push(item))) by {
                        assert forall|a: int, b: int| 0 <= a < b < nv.len() implies seq_lt(nv[a].0, nv[b].0) by {
                            if b < p {
                                assert(nv[a] == gv[a] && nv[b] == gv[b]);
                            } else if a > p {
                                assert(nv[a] == gv[a - 1] && nv[b] == gv[b - 1]);
                            } else if a == p {
                                assert(nv[b] == gv[b - 1]);
                                assert(gv[b - 1].0 == old_groups[b - 1].case@);
                            } else if b == p {
                                assert(nv[a] == gv[a]);
                                assert(gv[a].0 == old_groups[a].case@);
                            } else {
                                assert(nv[a] == gv[a] && nv[b] == gv[b - 1]);
                                assert(a < b - 1);
                            }
                        }
                        assert forall|x: int| 0 <= x < nv.len() implies #[trigger] nv[x].1 == entries_of(prev.push(item), nv[x].0) by {
                            lemma_entries_push(prev, item, nv[x].0);
                            if x < p {
                                assert(nv[x] == gv[x]);
                                assert(gv[x].0 == old_groups[x].case@);
                            } else if x > p {
                                assert(nv[x] == gv[x - 1]);
                                assert(gv[x - 1].0 == old_groups[x - 1].case@);
                            } else {
                                assert(Seq::<ComparisonView>::empty().push(item.1) =~= seq![item.1]);
                            }
                        }
                        assert forall|x: int| 0 <= x < nv.len() implies #[trigger] nv[x].1.len() > 0 by {
                            if x < p {
                                assert(nv[x] == gv[x]);
                            } else if x > p {
                                assert(nv[x] == gv[x - 1]);
                            }
                        }
                        assert forall|q: int| 0 <= q < prev.push(item).len() implies group_names(nv).contains(#[trigger] prev.push(item)[q].0) by {
                            if q < prev.len() {
                                assert(prev.push(item)[q] == prev[q]);
                                assert(group_names(gv).contains(prev[q].0));
                                let x = choose|x: int| 0 <= x < group_names(gv).len() && group_names(gv)[x] == prev[q].0;
                                if x < p {
                                    assert(group_names(nv)[x] == prev[q].0);
                                } else {
                                    assert(group_names(nv)[x + 1] == prev[q].0);
                                }
                            } else {
                                assert(group_names(nv)[p as int] == item.0);
                            }
                        }
                    }
                }
            },
        }
        k += 1;
    }
    assert(pv.take(pv.len() as int) =~= pv);
    groups
}


fn is_decided(o: &str) -> (r: bool)
    ensures
        r == decided(o@),
{
    str_eq(o, "pass") || str_eq(o, "fail")
}

/// The pairings of run `b` against run `a` (see [`pairings`]).
pub open spec fn run_pairings(a: EvalReport, b: EvalReport) -> Seq<(Seq<char>, ComparisonView)> {
    pairings(keyed_all(cases_view(b.cases@)), keyed_all(cases_view(a.cases@)))
}

/// Compares run `arm_b` against run `arm_a`. An assertion of a named case
/// is paired with the last assertion of `arm_a` that has the same case
/// name, conversation and class; pairs where either outcome is neither
/// `pass` nor `fail` are left out. The totals count the pairs by change,
/// and the cases group them by case name, in name order.
pub fn compute_comparison(arm_a: &EvalReport, arm_b: &EvalReport) -> (r: ComparisonReport)
    ensures
        r.arm_a.run_id@ == arm_a.run_id@,
        r.arm_b.run_id@ == arm_b.run_id@,
        r.totals == comparison_totals(run_pairings(*arm_a, *arm_b)),
        grouped(groups_view(r.cases@), run_pairings(*arm_a, *arm_b)),
{
    let a_recs = keyed_flat(&arm_a.cases);
    let b_recs = keyed_flat(&arm_b.cases);
    let ghost av = keyed_views(a_recs@);
    let ghost bv = keyed_views(b_recs@);
    let mut ps: Vec<(String, AssertionComparison)> = Vec::new();
    let mut totals = ComparisonTotals { improved: 0, regressed: 0, unchanged_pass: 0, unchanged_fail: 0, total_assertions: 0 };
    let mut k: usize = 0;
    while k < b_recs.len()
        invariant
            k <= b_recs@.len(),
            av == keyed_views(a_recs@),
            bv == keyed_views(b_recs@),
            ps@.map_values(|p: (String, AssertionComparison)| pairing_view(p)) == pairings(bv.take(k as int), av),
            totals == comparison_totals(pairings(bv.take(k as int), av)),
        decreases b_recs.len() - k,
    {
        let ghost before = pairings(bv.take(k as int), av);
        let r = b_recs[k];
        proof {
            assert(bv.take(k + 1).drop_last() =~= bv.take(k as int));
            assert(bv.take(k + 1).last() == keyed_view(r));
        }
        match &r.0.name {
            Some(name) => {
                if is_decided(r.2.outcome.as_str()) {
                    match find_last(&a_recs, r) {
                        Some(ao) => {
                            if is_decided(ao.as_str()) {
                                let change = change_text(ao.as_str(), r.2.outcome.as_str());
                                let entry = AssertionComparison {
                                    class: owned(r.2.class.as_str()),
                                    change: owned(change),
                                    arm_a: owned(ao.as_str()),
                                    arm_b: owned(r.2.outcome.as_str()),
                                };
                                let ghost o = ps@;
                                ps.push((owned(name.as_str()), entry));
                                count_change(&mut totals, change);
                                proof {
                                    let after = pairings(bv.take(k + 1), av);
                                    assert(after == before.push((name@, (r.2.class@, change@, ao@, r.2.outcome@))));
                                    assert(ps@.map_values(|p: (String, AssertionComparison)| pairing_view(p)) =~= after);
                                    assert(after.drop_last() =~= before);
                                }
                            }
                        },
                        None => {},
                    }
                }
            },
            None => {},
        }
        k += 1;
    }
    assert(bv.take(bv.len() as int) =~= bv);
    let cases = group_pairings(&ps);
    ComparisonReport {
        arm_a: ArmRef { run_id: owned(arm_a.run_id.as_str()) },
        arm_b: ArmRef { run_id: owned(arm_b.run_id.as_str()) },
        totals,
        cases,
    }
}


/// Number of paired assertions whose change is `c`.
pub open spec fn count_of(assertions: Seq<ComparisonView>, c: Seq<char>) -> nat
    decreases assertions.len(),
{
    if assertions.len() == 0 {
        0
    } else {
        count_of(assertions.drop_last(), c) + if assertions.last().1 == c { 1nat } else { 0nat }
    }
}

/// Whether a paired assertion changed.
pub open spec fn is_changed(a: ComparisonView) -> bool {
    a.1 == "Improved"@ || a.1 == "Regressed"@
}

/// The changed paired assertions, in order.
pub open spec fn changed_of(assertions: Seq<ComparisonView>) -> Seq<ComparisonView>
    decreases assertions.len(),
{
    if assertions.len() == 0 {
        Seq::empty()
    } else if is_changed(assertions.last()) {
        changed_of(assertions.drop_last()).push(assertions.last())
    } else {
        changed_of(assertions.drop_last())
    }
}

/// The headline row of one case.
pub open spec fn case_row(c: (Seq<char>, Seq<ComparisonView>)) -> Seq<char> {
    "| "@ + c.0 + " | +"@ + dec(count_of(c.1, "Improved"@)) + " / -"@ + dec(count_of(c.1, "Regressed"@)) + " | |\n"@
}

/// The headline rows of the cases.
pub open spec fn case_rows(cases: Seq<(Seq<char>, Seq<ComparisonView>)>) -> Seq<char>
    decreases cases.len(),
{
    if cases.len() == 0 {
        Seq::empty()
    } else {
        case_rows(cases.drop_last()) + case_row(cases.last())
    }
}

/// The drill-down row of one changed assertion.
pub open spec fn change_row(a: ComparisonView) -> Seq<char> {
    "| "@ + a.0 + " | "@ + a.2 + " | "@ + a.3 + " | "@ + a.1 + " |\n"@
}

/// The drill-down rows of the assertions.
pub open spec fn change_rows(assertions: Seq<ComparisonView>) -> Seq<char>
    decreases assertions.len(),
{
    if assertions.len() == 0 {
        Seq::empty()
    } else {
        change_rows(assertions.drop_last()) + change_row(assertions.last())
    }
}

/// The drill-down section of one case: empty when nothing changed.
pub open spec fn case_section(c: (Seq<char>, Seq<ComparisonView>), label_a: Seq<char>, label_b: Seq<char>) -> Seq<char> {
    let changed = changed_of(c.1);
    if changed.len() == 0 {
        Seq::empty()
    } else {
        "### "@ + c.0 + "\n\n"@ + "| Class | "@ + label_a + " | "@ + label_b + " | Change |\n"@
            + "|-------|--------|--------|--------|\n"@ + change_rows(changed) + "\n"@
    }
}

/// The drill-down sections of the cases.
pub open spec fn case_sections(cases: Seq<(Seq<char>, Seq<ComparisonView>)>, label_a: Seq<char>, label_b: Seq<char>) -> Seq<char>
    decreases cases.len(),
{
    if cases.len() == 0 {
        Seq::empty()
    } else {
        case_sections(cases.drop_last(), label_a, label_b) + case_section(cases.last(), label_a, label_b)
    }
}

/// Whether some case has a changed assertion.
pub open spec fn any_changed(cases: Seq<(Seq<char>, Seq<ComparisonView>)>) -> bool {
    exists|i: int| 0 <= i < cases.len() && changed_of(#[trigger] cases[i].1).len() > 0
}

/// The markdown rendering of a comparison.
pub open spec fn comparison_markdown(report: ComparisonReport, label_a: Seq<char>, label_b: Seq<char>) -> Seq<char> {
    let cases = groups_view(report.cases@);
    let t = report.totals;
    "# Report: "@ + report.arm_a.run_id@ + " vs "@ + report.arm_b.run_id@ + "\n\n"@
        + "**Summary:** improved "@ + dec(t.improved as nat) + ", regressed "@ + dec(t.regressed as nat)
        + ", unchanged pass "@ + dec(t.unchanged_pass as nat) + ", unchanged fail "@ + dec(t.unchanged_fail as nat)
        + "\n\n"@ + "| Case | "@ + label_a + " | "@ + label_b + " |\n"@ + "|------|--------|--------|\n"@
        + case_rows(cases) + "\n"@ + if any_changed(cases) {
        "## Changed assertions\n\n"@ + case_sections(cases, label_a, label_b)
    } else {
        Seq::empty()
    }
}

fn count_change_of(assertions: &Vec<AssertionComparison>, c: &str) -> (r: usize)
    ensures
        r == count_of(assertions@.map_values(|a: AssertionComparison| comparison_view(a)), c@),
{
    let ghost v = assertions@.map_values(|a: AssertionComparison| comparison_view(a));
    let mut n: usize = 0;
    let mut i: usize = 0;
    while i < assertions.len()
        invariant
            i <= assertions@.len(),
            v == assertions@.map_values(|a: AssertionComparison| comparison_view(a)),
            n == count_of(v.take(i as int), c@),
            n <= i,
        decreases assertions.len() - i,
    {
        proof {
            assert(v.take(i + 1).drop_last() =~= v.take(i as int));
            assert(v.take(i + 1).last() == v[i as int]);
        }
        if str_eq(assertions[i].change.as_str(), c) {
            n += 1;
        }
        i += 1;
    }
    assert(v.take(v.len() as int) =~= v);
    n
}

fn push_case_section(out: &mut String, c: &CaseComparison, label_a: &str, label_b: &str) -> (changed: bool)
    ensures
        final(out)@ == old(out)@ + case_section(case_comparison_view(*c), label_a@, label_b@),
        changed == (changed_of(case_comparison_view(*c).1).len() > 0),
{
    let ghost v = case_comparison_view(*c).1;
    let ghost start = out@;
    let mut rows = String::new();
    let mut any = false;
    let mut i: usize = 0;
    while i < c.assertions.len()
        invariant
            i <= c.assertions@.len(),
            v == case_comparison_view(*c).1,
            rows@ == change_rows(changed_of(v.take(i as int))),
            any == (changed_of(v.take(i as int)).len() > 0),
        decreases c.assertions.len() - i,
    {
        proof {
            assert(v.take(i + 1).drop_last() =~= v.take(i as int));
            assert(v.take(i + 1).last() == v[i as int]);
        }
        let a = &c.assertions[i];
        if str_eq(a.change.as_str(), "Improved") || str_eq(a.change.as_str(), "Regressed") {
            let ghost prev = changed_of(v.take(i as int));
            push_str(&mut rows, "| ");
            push_str(&mut rows, a.class.as_str());
            push_str(&mut rows, " | ");
            push_str(&mut rows, a.arm_a.as_str());
            push_str(&mut rows, " | ");
            push_str(&mut rows, a.arm_b.as_str());
            push_str(&mut rows, " | ");
            push_str(&mut rows, a.change.as_str());
            push_str(&mut rows, " |\n");
            any = true;
            proof {
                assert(prev.push(v[i as int]).drop_last() =~= prev);
                assert(rows@ =~= change_rows(prev.push(v[i as int])));
            }
        }
        i += 1;
    }
    assert(v.take(v.len() as int) =~= v);
    if any {
        push_str(out, "### ");
        push_str(out, c.case.as_str());
        push_str(out, "\n\n");
        push_str(out, "| Class | ");
        push_str(out, label_a);
        push_str(out, " | ");
        push_str(out, label_b);
        push_str(out, " | Change |\n");
        push_str(out, "|-------|--------|--------|--------|\n");
        push_str(out, rows.as_str());
        push_str(out, "\n");
        assert(out@ =~= start + case_section(case_comparison_view(*c), label_a@, label_b@));
    } else {
        assert(out@ =~= start + case_section(case_comparison_view(*c), label_a@, label_b@));
    }
    any
}

/// Renders a comparison as markdown: the summary line, one headline row
/// per case, and, when something changed, a drill-down of the changed
/// assertions of each case (see [`comparison_markdown`]).
pub fn render_comparison_markdown(report: &ComparisonReport, label_a: &str, label_b: &str) -> (r: String)
    ensures
        r@ == comparison_markdown(*report, label_a@, label_b@),
{
    let ghost cv = groups_view(report.cases@);
    let mut out = String::new();
    push_str(&mut out, "# Report: ");
    push_str(&mut out, report.arm_a.run_id.as_str());
    push_str(&mut out, " vs ");
    push_str(&mut out, report.arm_b.run_id.as_str());
    push_str(&mut out, "\n\n");
    push_str(&mut out, "**Summary:** improved ");
    push_decimal_usize(&mut out, report.totals.improved);
    push_str(&mut out, ", regressed ");
    push_decimal_usize(&mut out, report.totals.regressed);
    push_str(&mut out, ", unchanged pass ");
    push_decimal_usize(&mut out, report.totals.unchanged_pass);
    push_str(&mut out, ", unchanged fail ");
    push_decimal_usize(&mut out, report.totals.unchanged_fail);
    push_str(&mut out, "\n\n");
    push_str(&mut out, "| Case | ");
    push_str(&mut out, label_a);
    push_str(&mut out, " | ");
    push_str(&mut out, label_b);
    push_str(&mut out, " |\n");
    push_str(&mut out, "|------|--------|--------|\n");
    let ghost head = out@;
    let mut has_changes = false;
    let mut i: usize = 0;
    while i < report.cases.len()
        invariant
            i <= report.cases@.len(),
            cv == groups_view(report.cases@),
            out@ == head + case_rows(cv.take(i as int)),
            has_changes == exists|j: int| 0 <= j < i && changed_of(#[trigger] cv[j].1).len() > 0,
        decreases report.cases.len() - i,
    {
        let c = &report.cases[i];
        proof {
            assert(cv.take(i + 1).drop_last() =~= cv.take(i as int));
            assert(cv.take(i + 1).last() == cv[i as int]);
            assert(cv[i as int] == case_comparison_view(*c));
        }
        let improved = count_change_of(&c.assertions, "Improved");
        let regressed = count_change_of(&c.assertions, "Regressed");
        push_str(&mut out, "| ");
        push_str(&mut out, c.case.as_str());
        push_str(&mut out, " | +");
        push_decimal_usize(&mut out, improved);
        push_str(&mut out, " / -");
        push_decimal_usize(&mut out, regressed);
        push_str(&mut out, " | |\n");
        let mut sec = String::new();
        if push_case_section(&mut sec, c, label_a, label_b) {
            has_changes = true;
        }
        proof {
            assert(out@ =~= head + case_rows(cv.take(i + 1)));
        }
        i += 1;
    }
    assert(cv.take(cv.len() as int) =~= cv);
    push_str(&mut out, "\n");
    if has_changes {
        push_str(&mut out, "## Changed assertions\n\n");
        let ghost mid = out@;
        let mut j: usize = 0;
        while j < report.cases.len()
            invariant
                j <= report.cases@.len(),
                cv == groups_view(report.cases@),
                out@ == mid + case_sections(cv.take(j as int), label_a@, label_b@),
            decreases report.cases.len() - j,
        {
            proof {
                assert(cv.take(j + 1).drop_last() =~= cv.take(j as int));
                assert(cv.take(j + 1).last() == cv[j as int]);
            }
            push_case_section(&mut out, &report.cases[j], label_a, label_b);
            j += 1;
        }
        assert(cv.take(cv.len() as int) =~= cv);
    }
    out
}


/// Whether `list` is the classes of `recs` in ascending order, each once.
pub open spec fn is_class_list(list: Seq<Seq<char>>, recs: Seq<RecordView>) -> bool {
    &&& forall|i: int, j: int| 0 <= i < j < list.len() ==> seq_lt(list[i], list[j])
    &&& forall|i: int| 0 <= i < list.len() ==> record_classes(recs).contains(#[trigger] list[i])
    &&& forall|r: int| 0 <= r < recs.len() ==> list.contains(#[trigger] recs[r].0)
}

/// The classes of the records, in order, with repeats.
pub open spec fn record_classes(recs: Seq<RecordView>) -> Seq<Seq<char>> {
    recs.map_values(|r: RecordView| r.0)
}

/// The outcome of the last record of class `class`, or an em dash.
pub open spec fn cell_of(recs: Seq<RecordView>, class: Seq<char>) -> Seq<char>
    decreases recs.len(),
{
    if recs.len() == 0 {
        "\u{2014}"@
    } else if recs.last().0 == class {
        recs.last().1
    } else {
        cell_of(recs.drop_last(), class)
    }
}

/// The cells of one row, one per class.
pub open spec fn cells(recs: Seq<RecordView>, classes: Seq<Seq<char>>) -> Seq<char>
    decreases classes.len(),
{
    if classes.len() == 0 {
        Seq::empty()
    } else {
        cells(recs, classes.drop_last()) + " "@ + cell_of(recs, classes.last()) + " |"@
    }
}

/// The rows of the matches of one case.
pub open spec fn match_rows(name: Seq<char>, ms: Seq<(Seq<char>, Seq<RecordView>)>, classes: Seq<Seq<char>>) -> Seq<char>
    decreases ms.len(),
{
    if ms.len() == 0 {
        Seq::empty()
    } else {
        match_rows(name, ms.drop_last(), classes) + "| "@ + name + " |"@ + cells(ms.last().1, classes) + "\n"@
    }
}

/// The rows of every case.
pub open spec fn report_rows(cv: Seq<(Option<Seq<char>>, Seq<(Seq<char>, Seq<RecordView>)>)>, classes: Seq<Seq<char>>) -> Seq<char>
    decreases cv.len(),
{
    if cv.len() == 0 {
        Seq::empty()
    } else {
        report_rows(cv.drop_last(), classes) + match_rows(
            match cv.last().0 { Some(n) => n, None => "(unnamed)"@ },
            cv.last().1,
            classes,
        )
    }
}

/// The header cells, one per class.
pub open spec fn class_heads(classes: Seq<Seq<char>>) -> Seq<char>
    decreases classes.len(),
{
    if classes.len() == 0 {
        Seq::empty()
    } else {
        class_heads(classes.drop_last()) + " "@ + classes.last() + " |"@
    }
}

/// The header rule cells, one per class.
pub open spec fn class_rules(n: nat) -> Seq<char>
    decreases n,
{
    if n == 0 {
        Seq::empty()
    } else {
        class_rules((n - 1) as nat) + "--------|"@
    }
}

/// The markdown rendering of one run, with `classes` as the columns.
pub open spec fn single_markdown(report: EvalReport, classes: Seq<Seq<char>>) -> Seq<char> {
    let passed = report.totals.assertions.passed as nat;
    let total = passed + report.totals.assertions.failed as nat;
    let rate = if total == 0 { 0 } else { passed * 100 / total };
    "# Report: "@ + report.suite@ + " \u{2014} "@ + report.run_id@ + "\n\n"@ + "**Pass rate:** "@ + dec(passed)
        + " / "@ + dec(total) + " ("@ + dec(rate) + "%)\n\n"@ + "| Case |"@ + class_heads(classes) + "\n"@
        + "|------|"@ + class_rules(classes.len()) + "\n"@ + report_rows(cases_view(report.cases@), classes)
}

fn insert_class(list: &mut Vec<String>, class: &str)
    requires
        forall|i: int, j: int| 0 <= i < j < old(list)@.len() ==> seq_lt(old(list)@[i]@, old(list)@[j]@),
    ensures
        forall|i: int, j: int| 0 <= i < j < final(list)@.len() ==> seq_lt(final(list)@[i]@, final(list)@[j]@),
        forall|x: Seq<char>| crate::bash::strings_view(final(list)@).contains(x) <==> (crate::bash::strings_view(old(list)@).contains(x) || x == class@),
{
    let ghost old_v = crate::bash::strings_view(list@);
    let mut i: usize = 0;
    while i < list.len()
        invariant
            i <= list@.len(),
            list@ == old(list)@,
            old_v == crate::bash::strings_view(list@),
            forall|a: int, b: int| 0 <= a < b < list@.len() ==> seq_lt(list@[a]@, list@[b]@),
            forall|a: int| 0 <= a < i ==> seq_lt(list@[a]@, class@),
        decreases list.len() - i,
    {
        if str_eq(list[i].as_str(), class) {
            proof {
                assert(old_v[i as int] == class@);
                assert forall|x: Seq<char>| crate::bash::strings_view(list@).contains(x) <==> (old_v.contains(x) || x == class@) by {
                    if x == class@ {
                        assert(old_v[i as int] == x);
                    }
                }
            }
            return;
        }
        if str_lt(class, list[i].as_str()) {
            let ghost before = list@;
            list.insert(i, owned(class));
            proof {
                let nv = crate::bash::strings_view(list@);
                assert(nv =~= old_v.insert(i as int, class@));
                assert forall|a: int, b: int| 0 <= a < b < list@.len() implies seq_lt(list@[a]@, list@[b]@) by {
                    assert(list@[a]@ == nv[a] && list@[b]@ == nv[b]);
                    if b < i {
                        assert(nv[a] == old_v[a] && nv[b] == old_v[b]);
                    } else if a > i {
                        assert(nv[a] == old_v[a - 1] && nv[b] == old_v[b - 1]);
                    } else if a == i {
                        assert(nv[b] == old_v[b - 1]);
                        if b - 1 > i {
                            crate::text::lemma_seq_lt_trans(class@, before[i as int]@, before[b - 1]@);
                        }
                    } else {
                        assert(nv[a] == old_v[a]);
                        if b == i {
                        } else {
                            assert(nv[b] == old_v[b - 1]);
                            if a < b - 1 {
                            }
                        }
                    }
                }
                assert forall|x: Seq<char>| nv.contains(x) <==> (old_v.contains(x) || x == class@) by {
                    if nv.contains(x) {
                        let q = choose|q: int| 0 <= q < nv.len() && nv[q] == x;
                        if q < i {
                            assert(old_v[q] == x);
                        } else if q > i {
                            assert(old_v[q - 1] == x);
                        }
                    }
                    if old_v.contains(x) {
                        let q = choose|q: int| 0 <= q < old_v.len() && old_v[q] == x;
                        if q < i {
                            assert(nv[q] == x);
                        } else {
                            assert(nv[q + 1] == x);
                        }
                    }
                    if x == class@ {
                        assert(nv[i as int] == x);
                    }
                }
            }
            return;
        }
        proof {
            crate::text::lemma_seq_lt_total(list@[i as int]@, class@);
        }
        i += 1;
    }
    let ghost before = list@;
    list.push(owned(class));
    proof {
        let nv = crate::bash::strings_view(list@);
        assert(nv =~= old_v.push(class@));
        assert forall|a: int, b: int| 0 <= a < b < list@.len() implies seq_lt(list@[a]@, list@[b]@) by {
            if b == before.len() {
                assert(list@[a] == before[a]);
            } else {
                assert(list@[a] == before[a] && list@[b] == before[b]);
            }
        }
        assert forall|x: Seq<char>| nv.contains(x) <==> (old_v.contains(x) || x == class@) by {
            if nv.contains(x) {
                let q = choose|q: int| 0 <= q < nv.len() && nv[q] == x;
                if q < old_v.len() {
                    assert(old_v[q] == x);
                }
            }
            if old_v.contains(x) {
                let q = choose|q: int| 0 <= q < old_v.len() && old_v[q] == x;
                assert(nv[q] == x);
            }
            if x == class@ {
                assert(nv[old_v.len() as int] == x);
            }
        }
    }
}


fn class_list(recs: &Vec<&AssertionReport>) -> (r: Vec<String>)
    ensures
        is_class_list(crate::bash::strings_view(r@), crate::eval::records_view(recs@)),
{
    let ghost rv = crate::eval::records_view(recs@);
    let mut list: Vec<String> = Vec::new();
    let mut i: usize = 0;
    while i < recs.len()
        invariant
            i <= recs@.len(),
            rv == crate::eval::records_view(recs@),
            forall|a: int, b: int| 0 <= a < b < list@.len() ==> seq_lt(list@[a]@, list@[b]@),
            forall|x: Seq<char>| crate::bash::strings_view(list@).contains(x) <==> exists|r: int| 0 <= r < i && rv[r].0 == x,
        decreases recs.len() - i,
    {
        assert(rv[i as int].0 == recs@[i as int].class@);
        insert_class(&mut list, recs[i].class.as_str());
        proof {
            assert forall|x: Seq<char>| crate::bash::strings_view(list@).contains(x) <==> exists|r: int| 0 <= r < i + 1 && rv[r].0 == x by {
                if exists|r: int| 0 <= r < i + 1 && rv[r].0 == x {
                    let r = choose|r: int| 0 <= r < i + 1 && rv[r].0 == x;
                    if r < i {
                        assert(exists|r: int| 0 <= r < i && rv[r].0 == x);
                    }
                }
                if exists|r: int| 0 <= r < i && rv[r].0 == x {
                    let r = choose|r: int| 0 <= r < i && rv[r].0 == x;
                    assert(0 <= r < i + 1 && rv[r].0 == x);
                }
            }
        }
        i += 1;
    }
    proof {
        let lv = crate::bash::strings_view(list@);
        assert forall|a: int| 0 <= a < lv.len() implies record_classes(rv).contains(#[trigger] lv[a]) by {
            assert(lv.contains(lv[a]));
            let r = choose|r: int| 0 <= r < i && rv[r].0 == lv[a];
            assert(record_classes(rv)[r] == lv[a]);
        }
        assert(rv.len() == i);
        assert forall|r: int| 0 <= r < rv.len() implies lv.contains(#[trigger] rv[r].0) by {
            assert(0 <= r < i && rv[r].0 == rv[r].0);
            assert(exists|q: int| 0 <= q < i && rv[q].0 == rv[r].0);
        }
        assert forall|a: int, b: int| 0 <= a < b < lv.len() implies seq_lt(lv[a], lv[b]) by {
            assert(lv[a] == list@[a]@ && lv[b] == list@[b]@);
        }
    }
    list
}

fn cell_for<'a>(assertions: &'a Vec<AssertionReport>, class: &str) -> (r: &'a str)
    ensures
        r@ == cell_of(assertions@.map_values(|a: AssertionReport| crate::eval::record_view(a)), class@),
{
    let ghost v = assertions@.map_values(|a: AssertionReport| crate::eval::record_view(a));
    let mut i: usize = assertions.len();
    assert(v.take(i as int) =~= v);
    while i > 0
        invariant
            i <= assertions@.len(),
            v == assertions@.map_values(|a: AssertionReport| crate::eval::record_view(a)),
            cell_of(v, class@) == cell_of(v.take(i as int), class@),
        decreases i,
    {
        proof {
            assert(v.take(i as int).drop_last() =~= v.take(i - 1));
            assert(v.take(i as int).last() == v[i - 1]);
        }
        if str_eq(assertions[i - 1].class.as_str(), class) {
            return assertions[i - 1].outcome.as_str();
        }
        i -= 1;
    }
    "\u{2014}"
}

/// Renders one run as markdown: the title, the pass rate (integer percent
/// of passed over passed plus failed, 0 when there are none), and a table
/// with one row per (case, conversation) and one column per class, in
/// class order, each cell the outcome of the last assertion of that class.
pub fn render_single_markdown(report: &EvalReport) -> (r: String)
    requires
        report.totals.assertions.passed * 100 <= usize::MAX,
        report.totals.assertions.passed + report.totals.assertions.failed <= usize::MAX,
    ensures
        exists|classes: Seq<Seq<char>>|
            is_class_list(classes, crate::eval::all_records(cases_view(report.cases@)))
                && r@ == single_markdown(*report, classes),
{
    let ghost cv = cases_view(report.cases@);
    let mut out = String::new();
    push_str(&mut out, "# Report: ");
    push_str(&mut out, report.suite.as_str());
    push_str(&mut out, " \u{2014} ");
    push_str(&mut out, report.run_id.as_str());
    push_str(&mut out, "\n\n");
    let passed = report.totals.assertions.passed;
    let failed = report.totals.assertions.failed;
    let total = passed + failed;
    let rate: usize = if total == 0 { 0 } else { passed * 100 / total };
    push_str(&mut out, "**Pass rate:** ");
    push_decimal_usize(&mut out, passed);
    push_str(&mut out, " / ");
    push_decimal_usize(&mut out, total);
    push_str(&mut out, " (");
    push_decimal_usize(&mut out, rate);
    push_str(&mut out, "%)\n\n");
    let flat = crate::eval::flat_records(&report.cases);
    let classes = class_list(&flat);
    let ghost lv = crate::bash::strings_view(classes@);
    push_str(&mut out, "| Case |");
    let ghost h0 = out@;
    let mut c: usize = 0;
    while c < classes.len()
        invariant
            c <= classes@.len(),
            lv == crate::bash::strings_view(classes@),
            out@ == h0 + class_heads(lv.take(c as int)),
        decreases classes.len() - c,
    {
        proof {
            assert(lv.take(c + 1).drop_last() =~= lv.take(c as int));
            assert(lv.take(c + 1).last() == classes@[c as int]@);
        }
        push_str(&mut out, " ");
        push_str(&mut out, classes[c].as_str());
        push_str(&mut out, " |");
        c += 1;
    }
    assert(lv.take(lv.len() as int) =~= lv);
    push_str(&mut out, "\n");
    push_str(&mut out, "|------|");
    let ghost h1 = out@;
    let mut c: usize = 0;
    while c < classes.len()
        invariant
            c <= classes@.len(),
            out@ == h1 + class_rules(c as nat),
        decreases classes.len() - c,
    {
        push_str(&mut out, "--------|");
        c += 1;
    }
    push_str(&mut out, "\n");
    let ghost h2 = out@;
    let mut i: usize = 0;
    while i < report.cases.len()
        invariant
            i <= report.cases@.len(),
            cv == cases_view(report.cases@),
            lv == crate::bash::strings_view(classes@),
            out@ == h2 + report_rows(cv.take(i as int), lv),
        decreases report.cases.len() - i,
    {
        let case = &report.cases[i];
        let name: &str = match &case.name { Some(n) => n.as_str(), None => "(unnamed)" };
        let ghost nm = match cv[i as int].0 { Some(n) => n, None => "(unnamed)"@ };
        assert(cv[i as int] == case_view(*case));
        assert(name@ == nm);
        let ghost mv = cv[i as int].1;
        let ghost base = out@;
        let mut j: usize = 0;
        while j < case.matches.len()
            invariant
                j <= case.matches@.len(),
                mv == case_view(*case).1,
                lv == crate::bash::strings_view(classes@),
                name@ == nm,
                out@ == base + match_rows(nm, mv.take(j as int), lv),
            decreases case.matches.len() - j,
        {
            let m = &case.matches[j];
            let ghost rv = mv[j as int].1;
            assert(mv[j as int] == crate::eval::match_view(*m));
            push_str(&mut out, "| ");
            push_str(&mut out, name);
            push_str(&mut out, " |");
            let ghost rb = out@;
            let mut c: usize = 0;
            while c < classes.len()
                invariant
                    c <= classes@.len(),
                    lv == crate::bash::strings_view(classes@),
                    rv == m.assertions@.map_values(|a: AssertionReport| crate::eval::record_view(a)),
                    out@ == rb + cells(rv, lv.take(c as int)),
                decreases classes.len() - c,
            {
                proof {
                    assert(lv.take(c + 1).drop_last() =~= lv.take(c as int));
                    assert(lv.take(c + 1).last() == classes@[c as int]@);
                }
                push_str(&mut out, " ");
                push_str(&mut out, cell_for(&m.assertions, classes[c].as_str()));
                push_str(&mut out, " |");
                c += 1;
            }
            assert(lv.take(lv.len() as int) =~= lv);
            push_str(&mut out, "\n");
            proof {
                assert(mv.take(j + 1).drop_last() =~= mv.take(j as int));
                assert(mv.take(j + 1).last() == mv[j as int]);
                assert(out@ =~= base + match_rows(nm, mv.take(j + 1), lv));
            }
            j += 1;
        }
        proof {
            assert(mv.take(mv.len() as int) =~= mv);
            assert(cv.take(i + 1).drop_last() =~= cv.take(i as int));
            assert(cv.take(i + 1).last() == cv[i as int]);
        }
        i += 1;
    }
    assert(cv.take(cv.len() as int) =~= cv);
    proof {
        assert(out@ =~= single_markdown(*report, lv));
    }
    out
}


/// The four change counts add up to the number of paired assertions, and
/// that is the number of pairings, for any run with fewer than
/// `usize::MAX` of them.
pub proof fn lemma_comparison_totals_add_up(ps: Seq<(Seq<char>, ComparisonView)>)
    requires
        ps.len() < usize::MAX,
    ensures
        comparison_totals(ps).total_assertions == ps.len(),
        comparison_totals(ps).improved + comparison_totals(ps).regressed + comparison_totals(ps).unchanged_pass
            + comparison_totals(ps).unchanged_fail == ps.len(),
    decreases ps.len(),
{
    if ps.len() > 0 {
        lemma_comparison_totals_add_up(ps.drop_last());
    }
}

/// Whether an outcome is `pass` or `fail`.
pub open spec fn is_pass_or_fail(o: Seq<char>) -> bool {
    o == "pass"@ || o == "fail"@
}

/// On outcomes decided in both runs the change tells the four cases apart:
/// two pairs get the same change only when their outcomes are the same.
/// So an assertion failing in both runs is never reported like one passing
/// in both.
pub proof fn lemma_change_distinguishes(a1: Seq<char>, b1: Seq<char>, a2: Seq<char>, b2: Seq<char>)
    requires
        is_pass_or_fail(a1),
        is_pass_or_fail(b1),
        is_pass_or_fail(a2),
        is_pass_or_fail(b2),
        change_of(a1, b1) == change_of(a2, b2),
    ensures
        a1 == a2,
        b1 == b2,
{
    reveal_strlit("pass");
    reveal_strlit("fail");
    reveal_strlit("Improved");
    reveal_strlit("Regressed");
    reveal_strlit("UnchangedPass");
    reveal_strlit("UnchangedFail");
    assert("pass"@ != "fail"@) by {
        assert("pass"@[0] != "fail"@[0]);
    }
    assert("Improved"@ != "Regressed"@) by {
        assert("Improved"@[0] != "Regressed"@[0]);
    }
    assert("Improved"@ != "UnchangedPass"@) by {
        assert("Improved"@[0] != "UnchangedPass"@[0]);
    }
    assert("Improved"@ != "UnchangedFail"@) by {
        assert("Improved"@[0] != "UnchangedFail"@[0]);
    }
    assert("Regressed"@ != "UnchangedPass"@) by {
        assert("Regressed"@[0] != "UnchangedPass"@[0]);
    }
    assert("Regressed"@ != "UnchangedFail"@) by {
        assert("Regressed"@[0] != "UnchangedFail"@[0]);
    }
    assert("UnchangedPass"@ != "UnchangedFail"@) by {
        assert("UnchangedPass"@[9] != "UnchangedFail"@[9]);
    }
}

/// Swapping the two runs swaps improvements and regressions and keeps an
/// unchanged assertion unchanged, passing or failing as before.
pub proof fn lemma_change_swapped_runs(a: Seq<char>, b: Seq<char>)
    requires
        is_pass_or_fail(a),
        is_pass_or_fail(b),
    ensures
        change_of(a, b) == "Improved"@ <==> change_of(b, a) == "Regressed"@,
        change_of(a, b) == "UnchangedPass"@ <==> change_of(b, a) == "UnchangedPass"@,
        change_of(a, b) == "UnchangedFail"@ <==> change_of(b, a) == "UnchangedFail"@,
        change_of(a, b) == "UnchangedPass"@ <==> a == "pass"@ && b == "pass"@,
        change_of(a, b) == "UnchangedFail"@ <==> a == "fail"@ && b == "fail"@,
{
    reveal_strlit("pass");
    reveal_strlit("fail");
    reveal_strlit("Improved");
    reveal_strlit("Regressed");
    reveal_strlit("UnchangedPass");
    reveal_strlit("UnchangedFail");
    assert("pass"@ != "fail"@) by {
        assert("pass"@[0] != "fail"@[0]);
    }
    assert("Improved"@ != "Regressed"@) by {
        assert("Improved"@[0] != "Regressed"@[0]);
    }
    assert("Improved"@ != "UnchangedPass"@) by {
        assert("Improved"@[0] != "UnchangedPass"@[0]);
    }
    assert("Improved"@ != "UnchangedFail"@) by {
        assert("Improved"@[0] != "UnchangedFail"@[0]);
    }
    assert("Regressed"@ != "UnchangedPass"@) by {
        assert("Regressed"@[0] != "UnchangedPass"@[0]);
    }
    assert("Regressed"@ != "UnchangedFail"@) by {
        assert("Regressed"@[0] != "UnchangedFail"@[0]);
    }
    assert("UnchangedPass"@ != "UnchangedFail"@) by {
        assert("UnchangedPass"@[9] != "UnchangedFail"@[9]);
    }
}

} // verus!
