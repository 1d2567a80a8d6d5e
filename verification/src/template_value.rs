//! Placeholder substitution over a TOML value: every string leaf, walked in
//! order, the first unresolved placeholder stopping the walk.
use vstd::prelude::*;

use crate::template::{spec_substitute, substitute, Context};

verus! {

/// A TOML value as the walk sees it. A float is held as its decimal text,
/// which the walk never reads.
#[derive(Debug)]
pub enum TomlValue {
    Text(String),
    Integer(i64),
    Float(String),
    Boolean(bool),
    Datetime(String),
    Array(Vec<TomlValue>),
    Table(Vec<(String, TomlValue)>),
}

/// The mathematical form of a [`TomlValue`].
pub enum TomlView {
    Text(Seq<char>),
    Integer(i64),
    Float(Seq<char>),
    Boolean(bool),
    Datetime(Seq<char>),
    Array(Seq<TomlView>),
    Table(Seq<(Seq<char>, TomlView)>),
}

/// The view of a TOML value.
pub open spec fn toml_view(v: TomlValue) -> TomlView
    decreases v, 0int,
{
    match v {
        TomlValue::Text(s) => TomlView::Text(s@),
        TomlValue::Integer(i) => TomlView::Integer(i),
        TomlValue::Float(f) => TomlView::Float(f@),
        TomlValue::Boolean(b) => TomlView::Boolean(b),
        TomlValue::Datetime(d) => TomlView::Datetime(d@),
        TomlValue::Array(items) => TomlView::Array(values_view(items@)),
        TomlValue::Table(entries) => TomlView::Table(table_view(entries@)),
    }
}

/// The views of a sequence of TOML values.
pub open spec fn values_view(items: Seq<TomlValue>) -> Seq<TomlView>
    decreases items, 1int,
{
    if items.len() == 0 {
        Seq::empty()
    } else {
        seq![toml_view(items[0])] + values_view(items.subrange(1, items.len() as int))
    }
}

/// The views of a sequence of table entries.
pub open spec fn table_view(entries: Seq<(String, TomlValue)>) -> Seq<(Seq<char>, TomlView)>
    decreases entries, 1int,
{
    if entries.len() == 0 {
        Seq::empty()
    } else {
        seq![(entries[0].0@, toml_view(entries[0].1))] + table_view(entries.subrange(1, entries.len() as int))
    }
}

/// A value with its string leaves substituted, in walk order, up to the
/// first one that names an unbound placeholder: that leaf and everything
/// after it stay as they were, and the placeholder's name comes back.
pub open spec fn walk(v: TomlView, ctx: Map<Seq<char>, Seq<char>>) -> (TomlView, Option<Seq<char>>)
    decreases v, 0int,
{
    match v {
        TomlView::Text(s) => match spec_substitute(s, ctx) {
            Ok(t) => (TomlView::Text(t), None),
            Err(k) => (v, Some(k)),
        },
        TomlView::Array(items) => {
            let (w, e) = walk_items(items, ctx);
            (TomlView::Array(w), e)
        },
        TomlView::Table(entries) => {
            let (w, e) = walk_entries(entries, ctx);
            (TomlView::Table(w), e)
        },
        _ => (v, None),
    }
}

/// [`walk`] over the items of an array, in order.
pub open spec fn walk_items(items: Seq<TomlView>, ctx: Map<Seq<char>, Seq<char>>) -> (Seq<TomlView>, Option<Seq<char>>)
    decreases items, 1int,
{
    if items.len() == 0 {
        (items, None)
    } else {
        let (h, e) = walk(items[0], ctx);
        let rest = items.subrange(1, items.len() as int);
        if e is Some {
            (seq![h] + rest, e)
        } else {
            let (t, e2) = walk_items(rest, ctx);
            (seq![h] + t, e2)
        }
    }
}

/// [`walk`] over the values of a table, in order; keys stay.
pub open spec fn walk_entries(entries: Seq<(Seq<char>, TomlView)>, ctx: Map<Seq<char>, Seq<char>>) -> (
    Seq<(Seq<char>, TomlView)>,
    Option<Seq<char>>,
)
    decreases entries, 1int,
{
    if entries.len() == 0 {
        (entries, None)
    } else {
        let (h, e) = walk(entries[0].1, ctx);
        let rest = entries.subrange(1, entries.len() as int);
        if e is Some {
            (seq![(entries[0].0, h)] + rest, e)
        } else {
            let (t, e2) = walk_entries(rest, ctx);
            (seq![(entries[0].0, h)] + t, e2)
        }
    }
}

/// [`values_view`] keeps length and maps element-wise.
pub proof fn lemma_values_view(items: Seq<TomlValue>)
    ensures
        values_view(items).len() == items.len(),
        forall|i: int| 0 <= i < items.len() ==> #[trigger] values_view(items)[i] == toml_view(items[i]),
    decreases items.len(),
{
    if items.len() > 0 {
        let rest = items.subrange(1, items.len() as int);
        lemma_values_view(rest);
        assert forall|i: int| 0 <= i < items.len() implies #[trigger] values_view(items)[i] == toml_view(items[i]) by {
            if i > 0 {
                assert(rest[i - 1] == items[i]);
            }
        }
    }
}

/// [`table_view`] keeps length and maps element-wise.
pub proof fn lemma_table_view(entries: Seq<(String, TomlValue)>)
    ensures
        table_view(entries).len() == entries.len(),
        forall|i: int|
            0 <= i < entries.len() ==> #[trigger] table_view(entries)[i] == (entries[i].0@, toml_view(entries[i].1)),
    decreases entries.len(),
{
    if entries.len() > 0 {
        let rest = entries.subrange(1, entries.len() as int);
        lemma_table_view(rest);
        assert forall|i: int| 0 <= i < entries.len() implies #[trigger] table_view(entries)[i] == (
            entries[i].0@,
            toml_view(entries[i].1),
        ) by {
            if i > 0 {
                assert(rest[i - 1] == entries[i]);
            }
        }
    }
}

#[verifier::loop_isolation(false)]
fn walk_value(v: TomlValue, ctx: &Context) -> (r: (TomlValue, Option<String>))
    ensures
        toml_view(r.0) == walk(toml_view(v), ctx.view()).0,
        match walk(toml_view(v), ctx.view()).1 {
            Some(k) => r.1 matches Some(s) && s@ == k,
            None => r.1 is None,
        },
    decreases v,
{
    let ghost v0 = v;
    match v {
        TomlValue::Text(s) => match substitute(s.as_str(), ctx) {
            Ok(t) => (TomlValue::Text(t), None),
            Err(e) => (TomlValue::Text(s), Some(e.placeholder)),
        },
        TomlValue::Array(items) => {
            let ghost all = items@;
            let ghost ctxv = ctx.view();
            proof {
                lemma_values_view(all);
                assert(decreases_to!(v0 => all)) by {
                    assert(decreases_to!(v0 => items));
                    assert(decreases_to!(items => items@));
                }
            }
            let n = items.len();
            let mut rest = items;
            let mut out: Vec<TomlValue> = Vec::new();
            let mut k: usize = 0;
            assert(values_view(all).subrange(0, n as int) =~= values_view(all));
            assert(values_view(out@) + walk_items(values_view(all), ctxv).0 =~= walk_items(values_view(all), ctxv).0);
            while k < n
                invariant
                    k <= n == all.len(),
                    decreases_to!(v0 => all),
                    ctxv == ctx.view(),
                    rest@ == all.subrange(k as int, n as int),
                    values_view(all).len() == all.len(),
                    forall|i: int| 0 <= i < all.len() ==> #[trigger] values_view(all)[i] == toml_view(all[i]),
                    walk_items(values_view(all), ctxv) == (
                        values_view(out@) + walk_items(values_view(all).subrange(k as int, n as int), ctxv).0,
                        walk_items(values_view(all).subrange(k as int, n as int), ctxv).1,
                    ),
                decreases n - k,
            {
                let x = rest.remove(0);
                proof {
                    assert(x == all[k as int]);
                    assert(rest@ =~= all.subrange(k + 1, n as int));
                    assert(decreases_to!(v0 => x)) by {
                        assert(decreases_to!(all => all[k as int]));
                    }
                }
                let ghost tail = values_view(all).subrange(k as int, n as int);
                let ghost out0 = out@;
                let (y, e) = walk_value(x, ctx);
                proof {
                    lemma_values_view(out0);
                    assert(tail[0] == toml_view(x));
                    assert(tail.subrange(1, tail.len() as int) =~= values_view(all).subrange(k + 1, n as int));
                }
                out.push(y);
                proof {
                    lemma_values_view(out@);
                    assert(values_view(out@) =~= values_view(out0) + seq![toml_view(y)]);
                }
                match e {
                    Some(key) => {
                        let ghost done = out@;
                        let mut j: usize = k + 1;
                        while j < n
                            invariant
                                k + 1 <= j <= n == all.len(),
                                rest@ == all.subrange(j as int, n as int),
                                out@ == done + all.subrange(k + 1, j as int),
                            decreases n - j,
                        {
                            let z = rest.remove(0);
                            assert(z == all[j as int]);
                            assert(rest@ =~= all.subrange(j + 1, n as int));
                            out.push(z);
                            assert(out@ =~= done + all.subrange(k + 1, j + 1));
                            j += 1;
                        }
                        proof {
                            lemma_values_view(out@);
                            lemma_values_view(done);
                            let rv = values_view(all).subrange(k + 1, n as int);
                            assert(values_view(out@) =~= values_view(done) + rv) by {
                                assert forall|i: int| 0 <= i < out@.len() implies #[trigger] values_view(out@)[i]
                                    == (values_view(done) + rv)[i] by {
                                    if i >= done.len() {
                                        assert(out@[i] == all[k + 1 + i - done.len()]);
                                    }
                                }
                            }
                            assert(values_view(done) =~= values_view(out0) + seq![toml_view(y)]);
                            assert(walk_items(tail, ctxv) == (seq![toml_view(y)] + rv, Some(key@)));
                            assert(values_view(out0) + (seq![toml_view(y)] + rv) =~= values_view(out@));
                        }
                        return (TomlValue::Array(out), Some(key));
                    },
                    None => {
                        proof {
                            let t2 = walk_items(values_view(all).subrange(k + 1, n as int), ctxv);
                            assert(walk_items(tail, ctxv) == (seq![toml_view(y)] + t2.0, t2.1));
                            assert(values_view(out0) + (seq![toml_view(y)] + t2.0) =~= values_view(out@) + t2.0);
                        }
                    },
                }
                k += 1;
            }
            proof {
                assert(values_view(all).subrange(n as int, n as int) =~= Seq::<TomlView>::empty());
                assert(values_view(out@) + Seq::<TomlView>::empty() =~= values_view(out@));
            }
            (TomlValue::Array(out), None)
        },
        TomlValue::Table(entries) => {
            let ghost all = entries@;
            let ghost ctxv = ctx.view();
            proof {
                lemma_table_view(all);
                assert(decreases_to!(v0 => all)) by {
                    assert(decreases_to!(v0 => entries));
                    assert(decreases_to!(entries => entries@));
                }
            }
            let n = entries.len();
            let mut rest = entries;
            let mut out: Vec<(String, TomlValue)> = Vec::new();
            let mut k: usize = 0;
            assert(table_view(all).subrange(0, n as int) =~= table_view(all));
            assert(table_view(out@) + walk_entries(table_view(all), ctxv).0 =~= walk_entries(table_view(all), ctxv).0);
            while k < n
                invariant
                    k <= n == all.len(),
                    decreases_to!(v0 => all),
                    ctxv == ctx.view(),
                    rest@ == all.subrange(k as int, n as int),
                    table_view(all).len() == all.len(),
                    forall|i: int|
                        0 <= i < all.len() ==> #[trigger] table_view(all)[i] == (all[i].0@, toml_view(all[i].1)),
                    walk_entries(table_view(all), ctxv) == (
                        table_view(out@) + walk_entries(table_view(all).subrange(k as int, n as int), ctxv).0,
                        walk_entries(table_view(all).subrange(k as int, n as int), ctxv).1,
                    ),
                decreases n - k,
            {
                let (name, x) = rest.remove(0);
                proof {
                    assert((name, x) == all[k as int]);
                    assert(rest@ =~= all.subrange(k + 1, n as int));
                    assert(decreases_to!(v0 => x)) by {
                        assert(decreases_to!(all => all[k as int]));
                        assert(decreases_to!(all[k as int] => all[k as int].1));
                    }
                }
                let ghost tail = table_view(all).subrange(k as int, n as int);
                let ghost out0 = out@;
                let (y, e) = walk_value(x, ctx);
                proof {
                    lemma_table_view(out0);
                    assert(tail[0] == (name@, toml_view(x)));
                    assert(tail.subrange(1, tail.len() as int) =~= table_view(all).subrange(k + 1, n as int));
                }
                let ghost name_v = name@;
                out.push((name, y));
                proof {
                    lemma_table_view(out@);
                    assert(table_view(out@) =~= table_view(out0) + seq![(name_v, toml_view(y))]);
                }
                match e {
                    Some(key) => {
                        let ghost done = out@;
                        let mut j: usize = k + 1;
                        while j < n
                            invariant
                                k + 1 <= j <= n == all.len(),
                                rest@ == all.subrange(j as int, n as int),
                                out@ == done + all.subrange(k + 1, j as int),
                            decreases n - j,
                        {
                            let z = rest.remove(0);
                            assert(z == all[j as int]);
                            assert(rest@ =~= all.subrange(j + 1, n as int));
                            out.push(z);
                            assert(out@ =~= done + all.subrange(k + 1, j + 1));
                            j += 1;
                        }
                        proof {
                            lemma_table_view(out@);
                            lemma_table_view(done);
                            let rv = table_view(all).subrange(k + 1, n as int);
                            assert(table_view(out@) =~= table_view(done) + rv) by {
                                assert forall|i: int| 0 <= i < out@.len() implies #[trigger] table_view(out@)[i]
                                    == (table_view(done) + rv)[i] by {
                                    if i >= done.len() {
                                        assert(out@[i] == all[k + 1 + i - done.len()]);
                                    }
                                }
                            }
                            assert(table_view(done) =~= table_view(out0) + seq![(name_v, toml_view(y))]);
                            assert(walk_entries(tail, ctxv) == (seq![(name_v, toml_view(y))] + rv, Some(key@)));
                            assert(table_view(out0) + (seq![(name_v, toml_view(y))] + rv) =~= table_view(out@));
                        }
                        return (TomlValue::Table(out), Some(key));
                    },
                    None => {
                        proof {
                            let t2 = walk_entries(table_view(all).subrange(k + 1, n as int), ctxv);
                            assert(walk_entries(tail, ctxv) == (seq![(name_v, toml_view(y))] + t2.0, t2.1));
                            assert(table_view(out0) + (seq![(name_v, toml_view(y))] + t2.0) =~= table_view(out@) + t2.0);
                        }
                    },
                }
                k += 1;
            }
            proof {
                assert(table_view(all).subrange(n as int, n as int) =~= Seq::<(Seq<char>, TomlView)>::empty());
                assert(table_view(out@) + Seq::<(Seq<char>, TomlView)>::empty() =~= table_view(out@));
            }
            (TomlValue::Table(out), None)
        },
        TomlValue::Integer(i) => (TomlValue::Integer(i), None),
        TomlValue::Float(f) => (TomlValue::Float(f), None),
        TomlValue::Boolean(b) => (TomlValue::Boolean(b), None),
        TomlValue::Datetime(d) => (TomlValue::Datetime(d), None),
    }
}

/// Substitutes every string leaf of `value` in walk order (see [`walk`]):
/// `Err` with the first placeholder that `ctx` does not bind, the leaves
/// before it substituted and the rest as they were.
pub fn substitute_value(value: &mut TomlValue, ctx: &Context) -> (r: Result<(), crate::template::UnresolvedPlaceholder>)
    ensures
        toml_view(*final(value)) == walk(toml_view(*old(value)), ctx.view()).0,
        match walk(toml_view(*old(value)), ctx.view()).1 {
            Some(k) => r matches Err(e) && e.placeholder@ == k,
            None => r is Ok,
        },
{
    let mut v = TomlValue::Boolean(false);
    core::mem::swap(&mut v, value);
    let (w, e) = walk_value(v, ctx);
    *value = w;
    match e {
        Some(k) => Err(crate::template::UnresolvedPlaceholder { placeholder: k }),
        None => Ok(()),
    }
}

} // verus!
