//! The namespace pass of skill enrichment, and the merge of the three
//! passes. A skill named `<plugin>:<rest>` brings in the other skills of its
//! plugin, alphabetically, then the bootstrap skills that exist; each skill
//! joins once, under the first pass that names it.
use vstd::prelude::*;

use crate::bash::strings_view;
use crate::enrichment::EnrichmentOrigin;
use crate::text::{chars_of, seq_lt, str_eq, str_lt, string_of};

verus! {

/// The first colon of `s` at or after `i`.
pub open spec fn colon_from(s: Seq<char>, i: int) -> Option<int>
    decreases s.len() - i,
{
    if i < 0 || i >= s.len() {
        None
    } else if s[i] == ':' {
        Some(i)
    } else {
        colon_from(s, i + 1)
    }
}

/// The plugin of a skill name: the text before its first colon, and `None`
/// when it has none.
pub open spec fn plugin_of(name: Seq<char>) -> Option<Seq<char>> {
    match colon_from(name, 0) {
        Some(i) => Some(name.take(i)),
        None => None,
    }
}

/// `x` put into the sorted texts after every text that does not sort after
/// it.
pub open spec fn insert_text(sorted: Seq<Seq<char>>, x: Seq<char>) -> Seq<Seq<char>>
    decreases sorted.len(),
{
    if sorted.len() == 0 {
        seq![x]
    } else if seq_lt(x, sorted.last()) {
        insert_text(sorted.drop_last(), x).push(sorted.last())
    } else {
        sorted.push(x)
    }
}

/// The texts sorted.
pub open spec fn sorted_texts(s: Seq<Seq<char>>) -> Seq<Seq<char>>
    decreases s.len(),
{
    if s.len() == 0 {
        Seq::empty()
    } else {
        insert_text(sorted_texts(s.drop_last()), s.last())
    }
}

/// The distinct plugins of the declared skills, sorted.
pub open spec fn plugin_set(declared: Seq<Seq<char>>) -> Seq<Seq<char>>
    decreases declared.len(),
{
    if declared.len() == 0 {
        Seq::empty()
    } else {
        let r = plugin_set(declared.drop_last());
        match plugin_of(declared.last()) {
            Some(p) => if r.contains(p) {
                r
            } else {
                insert_text(r, p)
            },
            None => r,
        }
    }
}

/// Whether a skill name is of plugin `p` and was not declared.
pub open spec fn is_sibling(p: Seq<char>, declared: Seq<Seq<char>>) -> spec_fn(Seq<char>) -> bool {
    |n: Seq<char>| plugin_of(n) == Some(p) && !declared.contains(n)
}

/// The skills of plugin `p` that were not declared, sorted.
pub open spec fn siblings(p: Seq<char>, declared: Seq<Seq<char>>, names: Seq<Seq<char>>) -> Seq<Seq<char>> {
    sorted_texts(names.filter(is_sibling(p, declared)))
}

/// The siblings of each plugin in turn.
pub open spec fn sibling_run(plugins: Seq<Seq<char>>, declared: Seq<Seq<char>>, names: Seq<Seq<char>>) -> Seq<Seq<char>>
    decreases plugins.len(),
{
    if plugins.len() == 0 {
        Seq::empty()
    } else {
        sibling_run(plugins.drop_last(), declared, names) + siblings(plugins.last(), declared, names)
    }
}

/// `picked` followed by each candidate not picked before it.
pub open spec fn add_new(picked: Seq<Seq<char>>, cands: Seq<Seq<char>>) -> Seq<Seq<char>>
    decreases cands.len(),
{
    if cands.len() == 0 {
        picked
    } else {
        let r = add_new(picked, cands.drop_last());
        if r.contains(cands.last()) {
            r
        } else {
            r.push(cands.last())
        }
    }
}

/// The skills every turn may draw on, in order.
pub open spec fn bootstrap() -> Seq<Seq<char>> {
    seq!["general:using-general"@, "patterns:using-patterns"@, "characters:using-characters"@]
}

/// `picked` followed by each bootstrap skill that exists, was not declared
/// and was not picked before it.
pub open spec fn add_bootstrap(
    picked: Seq<Seq<char>>,
    declared: Seq<Seq<char>>,
    names: Seq<Seq<char>>,
    boot: Seq<Seq<char>>,
) -> Seq<Seq<char>>
    decreases boot.len(),
{
    if boot.len() == 0 {
        picked
    } else {
        let r = add_bootstrap(picked, declared, names, boot.drop_last());
        let b = boot.last();
        if declared.contains(b) || r.contains(b) || !names.contains(b) {
            r
        } else {
            r.push(b)
        }
    }
}

/// The names the namespace pass adds for the declared skills, given the
/// names of the skills that exist: the siblings of each declared plugin
/// (plugins and siblings alphabetical), then the bootstrap skills; none
/// declared, none twice.
pub open spec fn namespace_names(declared: Seq<Seq<char>>, names: Seq<Seq<char>>) -> Seq<Seq<char>> {
    add_bootstrap(
        add_new(Seq::empty(), sibling_run(plugin_set(declared), declared, names)),
        declared,
        names,
        bootstrap(),
    )
}

/// The plugin of a skill name (see [`plugin_of`]).
pub fn plugin(name: &str) -> (r: Option<String>)
    ensures
        match plugin_of(name@) {
            Some(p) => r matches Some(s) && s@ == p,
            None => r is None,
        },
{
    let v = chars_of(name);
    let mut i: usize = 0;
    while i < v.len()
        invariant
            i <= v@.len(),
            v@ == name@,
            colon_from(name@, 0) == colon_from(name@, i as int),
        decreases v.len() - i,
    {
        if v[i] == ':' {
            let p = string_of(&v.as_slice()[0..i]);
            assert(p@ =~= name@.take(i as int));
            return Some(p);
        }
        i += 1;
    }
    None
}

fn contains_text(v: &Vec<String>, t: &str) -> (r: bool)
    ensures
        r == strings_view(v@).contains(t@),
{
    let mut i: usize = 0;
    while i < v.len()
        invariant
            i <= v@.len(),
            forall|j: int| 0 <= j < i ==> v@[j]@ != t@,
        decreases v.len() - i,
    {
        if str_eq(v[i].as_str(), t) {
            assert(strings_view(v@)[i as int] == t@);
            return true;
        }
        i += 1;
    }
    proof {
        if strings_view(v@).contains(t@) {
            let j = choose|j: int| 0 <= j < strings_view(v@).len() && strings_view(v@)[j] == t@;
            assert(v@[j]@ == t@);
        }
    }
    false
}

fn insert_sorted(out: &mut Vec<String>, x: String)
    ensures
        strings_view(final(out)@) == insert_text(strings_view(old(out)@), x@),
{
    let ghost s0 = strings_view(out@);
    let ghost o0 = out@;
    let mut i: usize = out.len();
    assert(s0.take(i as int) =~= s0);
    assert(insert_text(s0, x@) + s0.subrange(i as int, s0.len() as int) =~= insert_text(s0, x@));
    while i > 0 && str_lt(x.as_str(), out[i - 1].as_str())
        invariant
            i <= s0.len(),
            out@ == o0,
            s0 == strings_view(o0),
            insert_text(s0, x@) == insert_text(s0.take(i as int), x@) + s0.subrange(i as int, s0.len() as int),
        decreases i,
    {
        proof {
            let t = s0.take(i as int);
            assert(t.drop_last() =~= s0.take(i - 1));
            assert(t.last() == s0[i - 1]);
            assert(insert_text(t, x@) == insert_text(s0.take(i - 1), x@).push(s0[i - 1]));
            assert(insert_text(s0.take(i - 1), x@) + s0.subrange(i - 1, s0.len() as int) =~= insert_text(
                s0.take(i - 1),
                x@,
            ).push(s0[i - 1]) + s0.subrange(i as int, s0.len() as int));
        }
        i -= 1;
    }
    proof {
        let t = s0.take(i as int);
        if i == 0 {
            assert(insert_text(t, x@) == seq![x@]);
        } else {
            assert(t.last() == s0[i - 1]);
            assert(insert_text(t, x@) == t.push(x@));
        }
    }
    out.insert(i, x);
    proof {
        let t = s0.take(i as int);
        assert(strings_view(out@) =~= t.push(x@) + s0.subrange(i as int, s0.len() as int));
    }
}

fn plugins_of(declared: &Vec<String>) -> (r: Vec<String>)
    ensures
        strings_view(r@) == plugin_set(strings_view(declared@)),
{
    let ghost dv = strings_view(declared@);
    let mut out: Vec<String> = Vec::new();
    let mut i: usize = 0;
    while i < declared.len()
        invariant
            i <= declared@.len(),
            dv == strings_view(declared@),
            strings_view(out@) == plugin_set(dv.take(i as int)),
        decreases declared.len() - i,
    {
        assert(dv.take(i + 1).drop_last() =~= dv.take(i as int));
        assert(dv.take(i + 1).last() == declared@[i as int]@);
        match plugin(declared[i].as_str()) {
            Some(p) => {
                if !contains_text(&out, p.as_str()) {
                    insert_sorted(&mut out, p);
                }
            },
            None => {},
        }
        i += 1;
    }
    assert(dv.take(declared@.len() as int) =~= dv);
    out
}

fn siblings_of(p: &str, declared: &Vec<String>, names: &Vec<String>) -> (r: Vec<String>)
    ensures
        strings_view(r@) == siblings(p@, strings_view(declared@), strings_view(names@)),
{
    let ghost dv = strings_view(declared@);
    let ghost nv = strings_view(names@);
    let ghost keep = is_sibling(p@, dv);
    let mut out: Vec<String> = Vec::new();
    let mut i: usize = 0;
    while i < names.len()
        invariant
            i <= names@.len(),
            dv == strings_view(declared@),
            nv == strings_view(names@),
            keep == is_sibling(p@, dv),
            strings_view(out@) == sorted_texts(nv.take(i as int).filter(keep)),
        decreases names.len() - i,
    {
        let n = names[i].as_str();
        proof {
            assert(nv.take(i + 1).drop_last() =~= nv.take(i as int));
            assert(nv.take(i + 1).last() == n@);
            assert(nv.take(i + 1).filter(keep) == if keep(n@) {
                nv.take(i as int).filter(keep).push(n@)
            } else {
                nv.take(i as int).filter(keep)
            }) by {
                reveal(Seq::filter);
                assert(nv.take(i + 1).drop_last() =~= nv.take(i as int));
            }
        }
        let k = match plugin(n) {
            Some(q) => str_eq(q.as_str(), p) && !contains_text(declared, n),
            None => false,
        };
        assert(k == keep(n@));
        if k {
            insert_sorted(&mut out, n.to_owned());
            proof {
                let f = nv.take(i as int).filter(keep).push(n@);
                assert(f.drop_last() =~= nv.take(i as int).filter(keep));
                assert(f.last() == n@);
            }
        }
        i += 1;
    }
    assert(nv.take(names@.len() as int) =~= nv);
    out
}

fn push_new(out: &mut Vec<String>, x: &str)
    ensures
        strings_view(final(out)@) == if strings_view(old(out)@).contains(x@) {
            strings_view(old(out)@)
        } else {
            strings_view(old(out)@).push(x@)
        },
{
    if !contains_text(out, x) {
        let ghost o = strings_view(out@);
        out.push(x.to_owned());
        assert(strings_view(out@) =~= o.push(x@));
    }
}

/// The names the namespace pass adds for the declared skills, given the
/// names of the skills that exist (see [`namespace_names`]). The skill a
/// name stands for is the first of that name.
pub fn namespace_pass(declared: &Vec<String>, names: &Vec<String>) -> (r: Vec<String>)
    ensures
        strings_view(r@) == namespace_names(strings_view(declared@), strings_view(names@)),
{
    let ghost dv = strings_view(declared@);
    let ghost nv = strings_view(names@);
    let plugins = plugins_of(declared);
    let ghost pv = strings_view(plugins@);
    let mut out: Vec<String> = Vec::new();
    let mut i: usize = 0;
    assert(sibling_run(pv.take(0), dv, nv) =~= Seq::<Seq<char>>::empty());
    while i < plugins.len()
        invariant
            i <= plugins@.len(),
            dv == strings_view(declared@),
            nv == strings_view(names@),
            pv == strings_view(plugins@),
            strings_view(out@) == add_new(Seq::empty(), sibling_run(pv.take(i as int), dv, nv)),
        decreases plugins.len() - i,
    {
        let sib = siblings_of(plugins[i].as_str(), declared, names);
        let ghost sv = strings_view(sib@);
        let ghost base = sibling_run(pv.take(i as int), dv, nv);
        proof {
            assert(pv.take(i + 1).drop_last() =~= pv.take(i as int));
            assert(pv.take(i + 1).last() == plugins@[i as int]@);
            assert(sibling_run(pv.take(i + 1), dv, nv) == base + sv);
        }
        let mut j: usize = 0;
        while j < sib.len()
            invariant
                j <= sib@.len(),
                sv == strings_view(sib@),
                strings_view(out@) == add_new(Seq::empty(), base + sv.take(j as int)),
            decreases sib.len() - j,
        {
            proof {
                assert((base + sv.take(j + 1)).drop_last() =~= base + sv.take(j as int));
                assert((base + sv.take(j + 1)).last() == sv[j as int]);
            }
            push_new(&mut out, sib[j].as_str());
            j += 1;
        }
        assert(base + sv.take(sib@.len() as int) =~= base + sv);
        i += 1;
    }
    assert(pv.take(plugins@.len() as int) =~= pv);
    let ghost picked = strings_view(out@);
    let mut boot: Vec<String> = Vec::new();
    boot.push("general:using-general".to_owned());
    boot.push("patterns:using-patterns".to_owned());
    boot.push("characters:using-characters".to_owned());
    let ghost bv = strings_view(boot@);
    assert(bv =~= bootstrap());
    let mut k: usize = 0;
    while k < boot.len()
        invariant
            k <= boot@.len(),
            bv == strings_view(boot@),
            dv == strings_view(declared@),
            nv == strings_view(names@),
            strings_view(out@) == add_bootstrap(picked, dv, nv, bv.take(k as int)),
        decreases boot.len() - k,
    {
        let b = boot[k].as_str();
        proof {
            assert(bv.take(k + 1).drop_last() =~= bv.take(k as int));
            assert(bv.take(k + 1).last() == b@);
        }
        if !contains_text(declared, b) && !contains_text(&out, b) && contains_text(names, b) {
            let ghost o = strings_view(out@);
            out.push(b.to_owned());
            assert(strings_view(out@) =~= o.push(b@));
        }
        k += 1;
    }
    assert(bv.take(boot@.len() as int) =~= bv);
    out
}

/// Each name with the origin of the first pass that named it: the declared
/// names, then the namespace names, then the grep names, each name once.
pub open spec fn merged(
    declared: Seq<Seq<char>>,
    namespace: Seq<Seq<char>>,
    grep: Seq<Seq<char>>,
) -> Seq<(Seq<char>, EnrichmentOrigin)> {
    let all = add_new(add_new(add_new(Seq::empty(), declared), namespace), grep);
    all.map(|i: int, n: Seq<char>| (n, if i < add_new(Seq::empty(), declared).len() {
        EnrichmentOrigin::Declared
    } else if i < add_new(add_new(Seq::empty(), declared), namespace).len() {
        EnrichmentOrigin::Namespace
    } else {
        EnrichmentOrigin::Grep
    }))
}

proof fn lemma_add_new_prefix(picked: Seq<Seq<char>>, cands: Seq<Seq<char>>)
    ensures
        add_new(picked, cands).len() >= picked.len(),
        add_new(picked, cands).take(picked.len() as int) == picked,
    decreases cands.len(),
{
    if cands.len() > 0 {
        lemma_add_new_prefix(picked, cands.drop_last());
        let r = add_new(picked, cands.drop_last());
        assert(r.push(cands.last()).take(picked.len() as int) =~= r.take(picked.len() as int));
    }
}

/// The enriched list: each of the declared, namespace and grep names once,
/// under the first pass that named it (see [`merged`]).
pub fn merge_passes(declared: &Vec<String>, namespace: &Vec<String>, grep: &Vec<String>) -> (r: Vec<(String, EnrichmentOrigin)>)
    ensures
        r@.map_values(|e: (String, EnrichmentOrigin)| (e.0@, e.1)) == merged(
            strings_view(declared@),
            strings_view(namespace@),
            strings_view(grep@),
        ),
{
    let ghost dv = strings_view(declared@);
    let ghost sv = strings_view(namespace@);
    let ghost gv = strings_view(grep@);
    let mut names: Vec<String> = Vec::new();
    let mut i: usize = 0;
    while i < declared.len()
        invariant
            i <= declared@.len(),
            dv == strings_view(declared@),
            strings_view(names@) == add_new(Seq::empty(), dv.take(i as int)),
        decreases declared.len() - i,
    {
        proof {
            assert(dv.take(i + 1).drop_last() =~= dv.take(i as int));
            assert(dv.take(i + 1).last() == declared@[i as int]@);
        }
        push_new(&mut names, declared[i].as_str());
        i += 1;
    }
    assert(dv.take(declared@.len() as int) =~= dv);
    let n_declared = names.len();
    let ghost a = strings_view(names@);
    let mut j: usize = 0;
    while j < namespace.len()
        invariant
            j <= namespace@.len(),
            sv == strings_view(namespace@),
            strings_view(names@) == add_new(a, sv.take(j as int)),
        decreases namespace.len() - j,
    {
        proof {
            assert(sv.take(j + 1).drop_last() =~= sv.take(j as int));
            assert(sv.take(j + 1).last() == namespace@[j as int]@);
        }
        push_new(&mut names, namespace[j].as_str());
        j += 1;
    }
    assert(sv.take(namespace@.len() as int) =~= sv);
    let n_namespace = names.len();
    let ghost b = strings_view(names@);
    let mut k: usize = 0;
    while k < grep.len()
        invariant
            k <= grep@.len(),
            gv == strings_view(grep@),
            strings_view(names@) == add_new(b, gv.take(k as int)),
        decreases grep.len() - k,
    {
        proof {
            assert(gv.take(k + 1).drop_last() =~= gv.take(k as int));
            assert(gv.take(k + 1).last() == grep@[k as int]@);
        }
        push_new(&mut names, grep[k].as_str());
        k += 1;
    }
    assert(gv.take(grep@.len() as int) =~= gv);
    let ghost all = strings_view(names@);
    let ghost spec_r = merged(dv, sv, gv);
    assert(n_declared == add_new(Seq::<Seq<char>>::empty(), dv).len());
    assert(n_namespace == add_new(add_new(Seq::<Seq<char>>::empty(), dv), sv).len());
    let mut out: Vec<(String, EnrichmentOrigin)> = Vec::new();
    let mut m: usize = 0;
    while m < names.len()
        invariant
            m <= names@.len(),
            all == strings_view(names@),
            spec_r.len() == all.len(),
            spec_r == all.map(|i: int, n: Seq<char>| (n, if i < n_declared {
                EnrichmentOrigin::Declared
            } else if i < n_namespace {
                EnrichmentOrigin::Namespace
            } else {
                EnrichmentOrigin::Grep
            })),
            out@.map_values(|e: (String, EnrichmentOrigin)| (e.0@, e.1)) == spec_r.take(m as int),
        decreases names.len() - m,
    {
        let origin = if m < n_declared {
            EnrichmentOrigin::Declared
        } else if m < n_namespace {
            EnrichmentOrigin::Namespace
        } else {
            EnrichmentOrigin::Grep
        };
        let ghost o = out@.map_values(|e: (String, EnrichmentOrigin)| (e.0@, e.1));
        let s = names[m].as_str().to_owned();
        assert(s@ == all[m as int]);
        assert(spec_r[m as int] == (all[m as int], origin));
        out.push((s, origin));
        assert(out@.map_values(|e: (String, EnrichmentOrigin)| (e.0@, e.1)) =~= o.push((all[m as int], origin)));
        assert(out@.map_values(|e: (String, EnrichmentOrigin)| (e.0@, e.1)) =~= spec_r.take(m + 1));
        m += 1;
    }
    assert(spec_r.take(names@.len() as int) =~= spec_r);
    out
}


proof fn lemma_push_contains(s: Seq<Seq<char>>, a: Seq<char>)
    ensures
        forall|x: Seq<char>| #[trigger] s.push(a).contains(x) <==> (s.contains(x) || x == a),
{
    assert forall|x: Seq<char>| #[trigger] s.push(a).contains(x) <==> (s.contains(x) || x == a) by {
        if s.push(a).contains(x) {
            let i = choose|i: int| 0 <= i < s.push(a).len() && s.push(a)[i] == x;
            if i < s.len() {
                assert(s[i] == x);
            }
        }
        if s.contains(x) {
            let i = choose|i: int| 0 <= i < s.len() && s[i] == x;
            assert(s.push(a)[i] == x);
        }
        if x == a {
            assert(s.push(a)[s.len() as int] == x);
        }
    }
}

proof fn lemma_push_fresh(s: Seq<Seq<char>>, a: Seq<char>)
    requires
        s.no_duplicates(),
        !s.contains(a),
    ensures
        s.push(a).no_duplicates(),
{
    assert forall|i: int, j: int| 0 <= i < s.push(a).len() && 0 <= j < s.push(a).len() && i != j implies s.push(a)[i]
        != s.push(a)[j] by {
        if i == s.len() {
            assert(s[j] != a);
        } else if j == s.len() {
            assert(s[i] != a);
        }
    }
}

proof fn lemma_add_new(picked: Seq<Seq<char>>, cands: Seq<Seq<char>>)
    requires
        picked.no_duplicates(),
    ensures
        add_new(picked, cands).no_duplicates(),
        forall|x: Seq<char>| #[trigger] add_new(picked, cands).contains(x) <==> (picked.contains(x) || cands.contains(x)),
    decreases cands.len(),
{
    if cands.len() > 0 {
        let d = cands.drop_last();
        let l = cands.last();
        lemma_add_new(picked, d);
        lemma_push_contains(d, l);
        assert(d.push(l) =~= cands);
        let r = add_new(picked, d);
        if !r.contains(l) {
            lemma_push_fresh(r, l);
            lemma_push_contains(r, l);
        }
    }
}

proof fn lemma_insert_text_contains(sorted: Seq<Seq<char>>, x: Seq<char>)
    ensures
        forall|y: Seq<char>| #[trigger] insert_text(sorted, x).contains(y) <==> (sorted.contains(y) || y == x),
    decreases sorted.len(),
{
    if sorted.len() == 0 {
        assert forall|y: Seq<char>| #[trigger] insert_text(sorted, x).contains(y) <==> (sorted.contains(y) || y == x) by {
            if y == x {
                assert(seq![x][0] == y);
            }
        }
    } else if seq_lt(x, sorted.last()) {
        let d = sorted.drop_last();
        lemma_insert_text_contains(d, x);
        lemma_push_contains(insert_text(d, x), sorted.last());
        lemma_push_contains(d, sorted.last());
        assert(d.push(sorted.last()) =~= sorted);
    } else {
        lemma_push_contains(sorted, x);
    }
}

proof fn lemma_sorted_texts_contains(s: Seq<Seq<char>>)
    ensures
        forall|y: Seq<char>| #[trigger] sorted_texts(s).contains(y) <==> s.contains(y),
    decreases s.len(),
{
    if s.len() > 0 {
        let d = s.drop_last();
        lemma_sorted_texts_contains(d);
        lemma_insert_text_contains(sorted_texts(d), s.last());
        lemma_push_contains(d, s.last());
        assert(d.push(s.last()) =~= s);
    }
}

proof fn lemma_sibling_run_undeclared(plugins: Seq<Seq<char>>, declared: Seq<Seq<char>>, names: Seq<Seq<char>>)
    ensures
        forall|x: Seq<char>| #[trigger] sibling_run(plugins, declared, names).contains(x) ==> !declared.contains(x),
    decreases plugins.len(),
{
    if plugins.len() > 0 {
        let p = plugins.last();
        let prev = sibling_run(plugins.drop_last(), declared, names);
        let f = names.filter(is_sibling(p, declared));
        lemma_sibling_run_undeclared(plugins.drop_last(), declared, names);
        lemma_sorted_texts_contains(f);
        assert forall|x: Seq<char>| #[trigger] sibling_run(plugins, declared, names).contains(x) implies !declared.contains(x) by {
            let r = prev + sorted_texts(f);
            let i = choose|i: int| 0 <= i < r.len() && r[i] == x;
            if i < prev.len() {
                assert(prev[i] == x);
                assert(prev.contains(x));
            } else {
                assert(sorted_texts(f)[i - prev.len()] == x);
                assert(sorted_texts(f).contains(x));
                assert(f.contains(x));
                let k = choose|k: int| 0 <= k < f.len() && f[k] == x;
                names.lemma_filter_pred(is_sibling(p, declared), k);
            }
        }
    }
}

proof fn lemma_add_bootstrap(
    picked: Seq<Seq<char>>,
    declared: Seq<Seq<char>>,
    names: Seq<Seq<char>>,
    boot: Seq<Seq<char>>,
)
    requires
        picked.no_duplicates(),
    ensures
        add_bootstrap(picked, declared, names, boot).no_duplicates(),
        forall|x: Seq<char>| #[trigger] add_bootstrap(picked, declared, names, boot).contains(x) ==> (picked.contains(x)
            || !declared.contains(x)),
    decreases boot.len(),
{
    if boot.len() > 0 {
        lemma_add_bootstrap(picked, declared, names, boot.drop_last());
        let r = add_bootstrap(picked, declared, names, boot.drop_last());
        let b = boot.last();
        if !(declared.contains(b) || r.contains(b) || !names.contains(b)) {
            lemma_push_fresh(r, b);
            lemma_push_contains(r, b);
        }
    }
}

/// The namespace pass names no skill twice, and none that was declared.
pub proof fn lemma_namespace_names_fresh(declared: Seq<Seq<char>>, names: Seq<Seq<char>>)
    ensures
        namespace_names(declared, names).no_duplicates(),
        forall|x: Seq<char>| #[trigger] namespace_names(declared, names).contains(x) ==> !declared.contains(x),
{
    let run = sibling_run(plugin_set(declared), declared, names);
    let e = Seq::<Seq<char>>::empty();
    lemma_add_new(e, run);
    lemma_sibling_run_undeclared(plugin_set(declared), declared, names);
    let picked = add_new(e, run);
    lemma_add_bootstrap(picked, declared, names, bootstrap());
    assert forall|x: Seq<char>| #[trigger] namespace_names(declared, names).contains(x) implies !declared.contains(x) by {
        if picked.contains(x) {
            assert(run.contains(x));
        }
    }
}

/// The enriched list names each skill once, and the declared skills come
/// first, in their order, without repeats.
pub proof fn lemma_merged_distinct(declared: Seq<Seq<char>>, namespace: Seq<Seq<char>>, grep: Seq<Seq<char>>)
    ensures
        forall|i: int, j: int|
            0 <= i < j < merged(declared, namespace, grep).len() ==> #[trigger] merged(declared, namespace, grep)[i].0
                != #[trigger] merged(declared, namespace, grep)[j].0,
        forall|i: int|
            0 <= i < add_new(Seq::empty(), declared).len() ==> #[trigger] merged(declared, namespace, grep)[i] == (
            add_new(Seq::empty(), declared)[i],
            EnrichmentOrigin::Declared,
        ),
{
    let e = Seq::<Seq<char>>::empty();
    let a = add_new(e, declared);
    let b = add_new(a, namespace);
    let all = add_new(b, grep);
    lemma_add_new(e, declared);
    lemma_add_new(a, namespace);
    lemma_add_new(b, grep);
    lemma_add_new_prefix(a, namespace);
    lemma_add_new_prefix(b, grep);
    assert forall|i: int| 0 <= i < a.len() implies #[trigger] merged(declared, namespace, grep)[i] == (
        a[i],
        EnrichmentOrigin::Declared,
    ) by {
        assert(b.take(a.len() as int)[i] == a[i]);
        assert(all.take(b.len() as int)[i] == b[i]);
    }
}

} // verus!
