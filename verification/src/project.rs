//! The rows of the workflow, skill and tool listings, and the rule that
//! orders them: the first entry of a name wins, and the rows come sorted by
//! name.
use vstd::prelude::*;

use crate::knowledge::WorkflowName;
use crate::text::{seq_lt, str_eq, str_lt, lemma_seq_lt_total, lemma_seq_lt_trans};

verus! {

broadcast use vstd::seq_lib::group_to_multiset_ensures;

/// A row of the workflow listing. Its source path is `workflow.toml` for a
/// root's bare workflow file and `workflows/<name>.toml` otherwise.
#[derive(Debug, Clone, PartialEq, Eq)]
pub struct WorkflowEntry {
    name: WorkflowName,
    description: String,
    source_path: String,
}

/// A row of the skill listing; its source path is `skills/<name>/SKILL.md`.
#[derive(Debug, Clone, PartialEq, Eq)]
pub struct SkillEntry {
    pub name: String,
    pub description: String,
    pub source_path: String,
}

/// A row of the tool listing. Tools have no source file.
#[derive(Debug, Clone, PartialEq, Eq)]
pub struct ToolEntry {
    pub name: String,
    pub description: String,
}

/// A listing row, sorted by its name.
pub trait Named {
    /// The name the row sorts by.
    spec fn key(&self) -> Seq<char>;

    /// The name's text.
    fn key_text(&self) -> (r: &str)
        ensures
            r@ == self.key(),
    ;
}

impl WorkflowEntry {
    /// The workflow's name.
    pub closed spec fn name_view(&self) -> Seq<char> {
        self.name@
    }

    /// The description's text.
    pub closed spec fn description_view(&self) -> Seq<char> {
        self.description@
    }

    /// The source path's text.
    pub closed spec fn source_path_view(&self) -> Seq<char> {
        self.source_path@
    }

    /// A row holding the three values as they are.
    pub fn new(name: WorkflowName, description: String, source_path: String) -> (r: Self)
        ensures
            r.name_view() == name@,
            r.description_view() == description@,
            r.source_path_view() == source_path@,
    {
        WorkflowEntry { name, description, source_path }
    }

    /// The workflow's name.
    pub fn name(&self) -> (r: &WorkflowName)
        ensures
            r@ == self.name_view(),
    {
        &self.name
    }

    /// The workflow's description.
    pub fn description(&self) -> (r: &str)
        ensures
            r@ == self.description_view(),
    {
        self.description.as_str()
    }

    /// Where the workflow was found, relative to its knowledge root.
    pub fn source_path(&self) -> (r: &str)
        ensures
            r@ == self.source_path_view(),
    {
        self.source_path.as_str()
    }
}

impl Named for WorkflowEntry {
    open spec fn key(&self) -> Seq<char> {
        self.name_view()
    }

    fn key_text(&self) -> (r: &str) {
        self.name.as_str()
    }
}

impl Named for SkillEntry {
    open spec fn key(&self) -> Seq<char> {
        self.name@
    }

    fn key_text(&self) -> (r: &str) {
        self.name.as_str()
    }
}

impl Named for String {
    open spec fn key(&self) -> Seq<char> {
        self@
    }

    fn key_text(&self) -> (r: &str) {
        self.as_str()
    }
}

/// The names of a sequence of rows.
pub open spec fn keys<T: Named>(s: Seq<T>) -> Seq<Seq<char>> {
    s.map_values(|x: T| x.key())
}

/// `x` put into `sorted` after every row whose name does not sort after
/// its own.
pub open spec fn insert_by_key<T: Named>(sorted: Seq<T>, x: T) -> Seq<T>
    decreases sorted.len(),
{
    if sorted.len() == 0 {
        seq![x]
    } else if seq_lt(x.key(), sorted.last().key()) {
        insert_by_key(sorted.drop_last(), x).push(sorted.last())
    } else {
        sorted.push(x)
    }
}

/// The rows sorted by name, rows of one name keeping their order (a
/// stable sort).
pub open spec fn sorted_by_key<T: Named>(s: Seq<T>) -> Seq<T>
    decreases s.len(),
{
    if s.len() == 0 {
        Seq::empty()
    } else {
        insert_by_key(sorted_by_key(s.drop_last()), s.last())
    }
}

/// Whether no row's name sorts before that of a row in front of it.
pub open spec fn is_sorted_by_key<T: Named>(s: Seq<T>) -> bool {
    forall|i: int, j: int| 0 <= i < j < s.len() ==> !seq_lt(#[trigger] s[j].key(), #[trigger] s[i].key())
}

/// The rows that win, in the order found: each candidate is a lookup name
/// and the row it produced, if any. A candidate whose lookup name is the
/// name of a row already kept is passed over; otherwise its row, if it has
/// one, is kept.
pub open spec fn first_wins<T: Named>(cands: Seq<(Seq<char>, Option<T>)>) -> Seq<T>
    decreases cands.len(),
{
    if cands.len() == 0 {
        Seq::empty()
    } else {
        let kept = first_wins(cands.drop_last());
        let (k, row) = cands.last();
        if keys(kept).contains(k) {
            kept
        } else {
            match row {
                Some(x) => kept.push(x),
                None => kept,
            }
        }
    }
}

/// The listing of the candidates: the rows that win, sorted by name.
pub open spec fn listing<T: Named>(cands: Seq<(Seq<char>, Option<T>)>) -> Seq<T> {
    sorted_by_key(first_wins(cands))
}

proof fn lemma_insert_by_key_multiset<T: Named>(sorted: Seq<T>, x: T)
    ensures
        insert_by_key(sorted, x).to_multiset() =~= sorted.to_multiset().insert(x),
    decreases sorted.len(),
{
    if sorted.len() == 0 {
        assert(seq![x] =~= Seq::<T>::empty().push(x));
    } else if seq_lt(x.key(), sorted.last().key()) {
        lemma_insert_by_key_multiset(sorted.drop_last(), x);
        assert(sorted =~= sorted.drop_last().push(sorted.last()));
    }
}

proof fn lemma_sorted_by_key_multiset<T: Named>(s: Seq<T>)
    ensures
        sorted_by_key(s).to_multiset() =~= s.to_multiset(),
    decreases s.len(),
{
    if s.len() > 0 {
        lemma_sorted_by_key_multiset(s.drop_last());
        lemma_insert_by_key_multiset(sorted_by_key(s.drop_last()), s.last());
        assert(s =~= s.drop_last().push(s.last()));
    }
}

proof fn lemma_insert_by_key_sorted<T: Named>(sorted: Seq<T>, x: T)
    requires
        is_sorted_by_key(sorted),
    ensures
        is_sorted_by_key(insert_by_key(sorted, x)),
    decreases sorted.len(),
{
    if sorted.len() == 0 {
    } else if seq_lt(x.key(), sorted.last().key()) {
        let d = sorted.drop_last();
        let l = sorted.last();
        assert(is_sorted_by_key(d));
        lemma_insert_by_key_sorted(d, x);
        lemma_insert_by_key_multiset(d, x);
        let r = insert_by_key(d, x);
        assert forall|i: int| 0 <= i < r.len() implies !seq_lt(l.key(), #[trigger] r[i].key()) by {
            assert(r.to_multiset().count(r[i]) > 0);
            if r[i] == x {
                lemma_seq_lt_total(x.key(), l.key());
            } else {
                assert(d.to_multiset().count(r[i]) > 0);
                assert(d.contains(r[i]));
                let k = choose|k: int| 0 <= k < d.len() && d[k] == r[i];
                assert(sorted[k] == d[k]);
                assert(sorted[sorted.len() - 1] == l);
                assert(!seq_lt(sorted[sorted.len() - 1].key(), sorted[k].key()));
            }
        }
        assert forall|i: int, j: int| 0 <= i < j < r.push(l).len() implies !seq_lt(
            #[trigger] r.push(l)[j].key(),
            #[trigger] r.push(l)[i].key(),
        ) by {
            if j == r.len() {
                assert(r.push(l)[j] == l);
                assert(r.push(l)[i] == r[i]);
            } else {
                assert(r.push(l)[j] == r[j]);
                assert(r.push(l)[i] == r[i]);
            }
        }
    } else {
        let l = sorted.last();
        let n = sorted.len();
        assert forall|i: int, j: int| 0 <= i < j < sorted.push(x).len() implies !seq_lt(
            #[trigger] sorted.push(x)[j].key(),
            #[trigger] sorted.push(x)[i].key(),
        ) by {
            if j == n {
                let y = sorted[i];
                assert(sorted.push(x)[i] == y);
                assert(sorted.push(x)[j] == x);
                if i < n - 1 {
                    assert(!seq_lt(sorted[n - 1].key(), sorted[i].key()));
                }
                lemma_seq_lt_total(x.key(), l.key());
                if seq_lt(x.key(), y.key()) {
                    if x.key() != l.key() {
                        lemma_seq_lt_trans(l.key(), x.key(), y.key());
                    }
                }
            } else {
                assert(sorted.push(x)[j] == sorted[j]);
                assert(sorted.push(x)[i] == sorted[i]);
            }
        }
    }
}

/// The sorting of [`sorted_by_key`] puts the rows in order by name and
/// keeps every row: the result is sorted and a permutation of its input.
pub proof fn lemma_sorted_by_key<T: Named>(s: Seq<T>)
    ensures
        is_sorted_by_key(sorted_by_key(s)),
        sorted_by_key(s).to_multiset() =~= s.to_multiset(),
    decreases s.len(),
{
    lemma_sorted_by_key_multiset(s);
    if s.len() > 0 {
        lemma_sorted_by_key(s.drop_last());
        lemma_insert_by_key_sorted(sorted_by_key(s.drop_last()), s.last());
    }
}

proof fn lemma_insert_by_key_len<T: Named>(sorted: Seq<T>, x: T)
    ensures
        insert_by_key(sorted, x).len() == sorted.len() + 1,
    decreases sorted.len(),
{
    if sorted.len() > 0 && seq_lt(x.key(), sorted.last().key()) {
        lemma_insert_by_key_len(sorted.drop_last(), x);
    }
}

fn insert_row<T: Named>(sorted: &mut Vec<T>, x: T)
    ensures
        final(sorted)@ == insert_by_key(old(sorted)@, x),
{
    let mut i: usize = sorted.len();
    let ghost s0 = sorted@;
    assert(s0.take(i as int) =~= s0);
    assert(insert_by_key(s0, x) + s0.subrange(i as int, s0.len() as int) =~= insert_by_key(s0, x));
    while i > 0 && str_lt(x.key_text(), sorted[i - 1].key_text())
        invariant
            i <= s0.len(),
            sorted@ == s0,
            insert_by_key(s0, x) == insert_by_key(s0.take(i as int), x) + s0.subrange(i as int, s0.len() as int),
        decreases i,
    {
        proof {
            let t = s0.take(i as int);
            assert(t.drop_last() =~= s0.take(i - 1));
            assert(t.last() == s0[i - 1]);
            assert(insert_by_key(t, x) == insert_by_key(s0.take(i - 1), x).push(s0[i - 1]));
            assert(insert_by_key(s0.take(i - 1), x) + s0.subrange(i - 1, s0.len() as int) =~= insert_by_key(
                s0.take(i - 1),
                x,
            ).push(s0[i - 1]) + s0.subrange(i as int, s0.len() as int));
        }
        i -= 1;
    }
    proof {
        let t = s0.take(i as int);
        if i == 0 {
            assert(insert_by_key(t, x) == seq![x]);
        } else {
            assert(t.last() == s0[i - 1]);
            assert(insert_by_key(t, x) == t.push(x));
        }
    }
    sorted.insert(i, x);
    proof {
        let t = s0.take(i as int);
        assert(sorted@ =~= t.push(x) + s0.subrange(i as int, s0.len() as int));
    }
}

fn any_key<T: Named>(rows: &Vec<T>, k: &str) -> (r: bool)
    ensures
        r == keys(rows@).contains(k@),
{
    let mut i: usize = 0;
    while i < rows.len()
        invariant
            i <= rows@.len(),
            forall|j: int| 0 <= j < i ==> rows@[j].key() != k@,
        decreases rows.len() - i,
    {
        if str_eq(rows[i].key_text(), k) {
            assert(keys(rows@)[i as int] == k@);
            return true;
        }
        i += 1;
    }
    proof {
        if keys(rows@).contains(k@) {
            let j = choose|j: int| 0 <= j < keys(rows@).len() && keys(rows@)[j] == k@;
            assert(rows@[j].key() == k@);
        }
    }
    false
}

/// The listing of candidates found in order, each a lookup name and the row
/// it produced (`None` where it produced none): the first of a name wins,
/// and the rows come sorted by name (see [`listing`]).
pub fn list_rows<T: Named>(cands: Vec<(String, Option<T>)>) -> (r: Vec<T>)
    ensures
        r@ == listing(cands@.map_values(|c: (String, Option<T>)| (c.0@, c.1))),
{
    let ghost cv = cands@.map_values(|c: (String, Option<T>)| (c.0@, c.1));
    let ghost all = cands@;
    let n = cands.len();
    let mut rest = cands;
    let mut kept: Vec<T> = Vec::new();
    let mut i: usize = 0;
    while i < n
        invariant
            i <= n == all.len(),
            cv == all.map_values(|c: (String, Option<T>)| (c.0@, c.1)),
            rest@ == all.subrange(i as int, n as int),
            kept@ == first_wins(cv.take(i as int)),
        decreases n - i,
    {
        let (k, row) = rest.remove(0);
        proof {
            assert((k, row) == all[i as int]);
            assert(rest@ =~= all.subrange(i + 1, n as int));
            assert(cv.take(i + 1).drop_last() =~= cv.take(i as int));
            assert(cv.take(i + 1).last() == (k@, row));
        }
        if !any_key(&kept, k.as_str()) {
            match row {
                Some(x) => kept.push(x),
                None => {},
            }
        }
        i += 1;
    }
    assert(cv.take(n as int) =~= cv);
    let ghost w = kept@;
    let mut out: Vec<T> = Vec::new();
    let mut j: usize = 0;
    let m = kept.len();
    let mut left = kept;
    while j < m
        invariant
            j <= m == w.len(),
            left@ == w.subrange(j as int, m as int),
            out@ == sorted_by_key(w.take(j as int)),
        decreases m - j,
    {
        let x = left.remove(0);
        proof {
            assert(x == w[j as int]);
            assert(left@ =~= w.subrange(j + 1, m as int));
            assert(w.take(j + 1).drop_last() =~= w.take(j as int));
        }
        insert_row(&mut out, x);
        j += 1;
    }
    assert(w.take(m as int) =~= w);
    out
}

/// The workflow listing's rows (see [`list_rows`]).
pub fn list_workflow_rows(cands: Vec<(String, Option<WorkflowEntry>)>) -> (r: Vec<WorkflowEntry>)
    ensures
        r@ == listing(cands@.map_values(|c: (String, Option<WorkflowEntry>)| (c.0@, c.1))),
{
    list_rows(cands)
}

/// The skill listing's rows (see [`list_rows`]).
pub fn list_skill_rows(cands: Vec<(String, Option<SkillEntry>)>) -> (r: Vec<SkillEntry>)
    ensures
        r@ == listing(cands@.map_values(|c: (String, Option<SkillEntry>)| (c.0@, c.1))),
{
    list_rows(cands)
}

/// Tool names in listing order: sorted, names that tie keeping their order.
pub fn sorted_names(names: Vec<String>) -> (r: Vec<String>)
    ensures
        r@ == sorted_by_key(names@),
{
    let ghost w = names@;
    let mut out: Vec<String> = Vec::new();
    let mut j: usize = 0;
    let m = names.len();
    let mut left = names;
    while j < m
        invariant
            j <= m == w.len(),
            left@ == w.subrange(j as int, m as int),
            out@ == sorted_by_key(w.take(j as int)),
        decreases m - j,
    {
        let x = left.remove(0);
        proof {
            assert(x == w[j as int]);
            assert(left@ =~= w.subrange(j + 1, m as int));
            assert(w.take(j + 1).drop_last() =~= w.take(j as int));
        }
        insert_row(&mut out, x);
        j += 1;
    }
    assert(w.take(m as int) =~= w);
    out
}

} // verus!
