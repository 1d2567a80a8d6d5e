//! `{{ name }}` placeholder substitution for workflow prompts.
use vstd::prelude::*;

use crate::text::{chars_eq, chars_of, string_of, trim, trim_bounds};

verus! {

/// Value of the first entry of `entries` whose key is `key`.
pub open spec fn lookup(entries: Seq<(Seq<char>, Seq<char>)>, key: Seq<char>) -> Option<Seq<char>>
    decreases entries.len(),
{
    if entries.len() == 0 {
        None
    } else if entries[0].0 == key {
        Some(entries[0].1)
    } else {
        lookup(entries.drop_first(), key)
    }
}

/// Named string values available to [`substitute`].
#[derive(Debug, Clone, Default)]
pub struct Context {
    values: Vec<(String, String)>,
}

impl Context {
    /// The entries as character sequences, in insertion order.
    pub closed spec fn entries(&self) -> Seq<(Seq<char>, Seq<char>)> {
        self.values@.map_values(|e: (String, String)| (e.0@, e.1@))
    }

    /// The key-to-value map this context holds.
    pub closed spec fn view(&self) -> Map<Seq<char>, Seq<char>> {
        Map::new(
            |k: Seq<char>| lookup(self.entries(), k) is Some,
            |k: Seq<char>| lookup(self.entries(), k)->0,
        )
    }

    /// An empty context.
    pub fn new() -> (c: Self)
        ensures
            c.view() == Map::<Seq<char>, Seq<char>>::empty(),
    {
        let c = Context { values: Vec::new() };
        assert(c.view() =~= Map::<Seq<char>, Seq<char>>::empty());
        c
    }

    /// Index of the first entry whose key is `key`, if any.
    fn position(&self, key: &[char]) -> (r: Option<usize>)
        ensures
            match r {
                Some(i) => i < self.values@.len() && self.entries()[i as int].0 == key@
                    && lookup(self.entries(), key@) == Some(self.entries()[i as int].1)
                    && forall|k: int| 0 <= k < i ==> self.entries()[k].0 != key@,
                None => lookup(self.entries(), key@) is None,
            },
    {
        let mut i: usize = 0;
        assert(self.entries().skip(0) =~= self.entries());
        while i < self.values.len()
            invariant
                i <= self.values@.len(),
                lookup(self.entries(), key@) == lookup(self.entries().skip(i as int), key@),
                forall|k: int| 0 <= k < i ==> self.entries()[k].0 != key@,
            decreases self.values.len() - i,
        {
            let k = chars_of(self.values[i].0.as_str());
            let ghost rest = self.entries().skip(i as int);
            assert(rest[0] == self.entries()[i as int]);
            if chars_eq(k.as_slice(), key) {
                return Some(i);
            }
            assert(rest.drop_first() =~= self.entries().skip(i + 1));
            i += 1;
        }
        None
    }

    /// Bind `key` to `value`, replacing any earlier binding of `key`.
    pub fn insert(&mut self, key: &str, value: &str)
        ensures
            final(self).view() == old(self).view().insert(key@, value@),
    {
        let k = chars_of(key);
        let ghost old_entries = self.entries();
        match self.position(k.as_slice()) {
            Some(i) => {
                self.values.set(i, (key.to_owned(), value.to_owned()));
                proof {
                    let new_entries = self.entries();
                    assert(new_entries =~= old_entries.update(i as int, (key@, value@)));
                    assert forall|q: Seq<char>|
                        lookup(new_entries, q) == if q == key@ {
                            Some(value@)
                        } else {
                            lookup(old_entries, q)
                        } by {
                        lemma_lookup_update(old_entries, i as int, key@, value@, q);
                    }
                    assert(self.view() =~= old(self).view().insert(key@, value@));
                }
            },
            None => {
                self.values.push((key.to_owned(), value.to_owned()));
                proof {
                    let new_entries = self.entries();
                    assert(new_entries =~= old_entries.push((key@, value@)));
                    assert forall|q: Seq<char>|
                        lookup(new_entries, q) == if q == key@ {
                            Some(value@)
                        } else {
                            lookup(old_entries, q)
                        } by {
                        lemma_lookup_push(old_entries, key@, value@, q);
                    }
                    assert(self.view() =~= old(self).view().insert(key@, value@));
                }
            },
        }
    }

    /// The value bound to `key`, if any.
    pub fn get(&self, key: &str) -> (r: Option<&str>)
        ensures
            match r {
                Some(v) => self.view().contains_key(key@) && v@ == self.view()[key@],
                None => !self.view().contains_key(key@),
            },
    {
        let k = chars_of(key);
        match self.position(k.as_slice()) {
            Some(i) => Some(self.values[i].1.as_str()),
            None => None,
        }
    }

    pub(crate) fn get_chars(&self, key: &[char]) -> (r: Option<&str>)
        ensures
            match r {
                Some(v) => self.view().contains_key(key@) && v@ == self.view()[key@],
                None => !self.view().contains_key(key@),
            },
    {
        match self.position(key) {
            Some(i) => Some(self.values[i].1.as_str()),
            None => None,
        }
    }
}

proof fn lemma_lookup_update(
    e: Seq<(Seq<char>, Seq<char>)>,
    i: int,
    key: Seq<char>,
    value: Seq<char>,
    q: Seq<char>,
)
    requires
        0 <= i < e.len(),
        e[i].0 == key,
        forall|k: int| 0 <= k < i ==> e[k].0 != key,
    ensures
        lookup(e.update(i, (key, value)), q) == if q == key {
            Some(value)
        } else {
            lookup(e, q)
        },
    decreases e.len(),
{
    let u = e.update(i, (key, value));
    if i == 0 {
        assert(u.drop_first() =~= e.drop_first());
    } else {
        assert(u.drop_first() =~= e.drop_first().update(i - 1, (key, value)));
        assert forall|k: int| 0 <= k < i - 1 implies e.drop_first()[k].0 != key by {
            assert(e.drop_first()[k] == e[k + 1]);
        }
        lemma_lookup_update(e.drop_first(), i - 1, key, value, q);
        assert(u[0] == e[0]);
    }
}

proof fn lemma_lookup_push(
    e: Seq<(Seq<char>, Seq<char>)>,
    key: Seq<char>,
    value: Seq<char>,
    q: Seq<char>,
)
    requires
        lookup(e, key) is None,
    ensures
        lookup(e.push((key, value)), q) == if q == key {
            Some(value)
        } else {
            lookup(e, q)
        },
    decreases e.len(),
{
    let u = e.push((key, value));
    if e.len() > 0 {
        assert(u.drop_first() =~= e.drop_first().push((key, value)));
        assert(u[0] == e[0]);
        lemma_lookup_push(e.drop_first(), key, value, q);
    } else {
        assert(u.drop_first() =~= e);
    }
}

/// A placeholder that names no value of the context.
#[derive(Debug, Clone, PartialEq, Eq)]
pub struct UnresolvedPlaceholder {
    pub placeholder: String,
}

/// First index `j >= from` at which `t` holds `}}`.
pub open spec fn find_close(t: Seq<char>, from: int) -> Option<int>
    decreases t.len() - from,
{
    if from < 0 || from + 1 >= t.len() {
        None
    } else if t[from] == '}' && t[from + 1] == '}' {
        Some(from)
    } else {
        find_close(t, from + 1)
    }
}

/// Whether a placeholder opens at `i`: `{{` followed, later on, by `}}`.
pub open spec fn opens_at(t: Seq<char>, i: int) -> bool {
    &&& 0 <= i
    &&& i + 1 < t.len()
    &&& t[i] == '{'
    &&& t[i + 1] == '{'
    &&& find_close(t, i + 2) is Some
}

/// The (trimmed) name of the placeholder that opens at `i`.
pub open spec fn key_at(t: Seq<char>, i: int) -> Seq<char> {
    trim(t.subrange(i + 2, find_close(t, i + 2)->0))
}

/// `o` prepended to a successful result; errors pass through.
pub open spec fn prepend(o: Seq<char>, r: Result<Seq<char>, Seq<char>>) -> Result<
    Seq<char>,
    Seq<char>,
> {
    match r {
        Ok(x) => Ok(o + x),
        Err(e) => Err(e),
    }
}

/// Single-pass substitution of `t[i..]`: `Ok` with the output text, or `Err`
/// with the name of the first placeholder that `ctx` does not bind.
pub open spec fn subst_from(t: Seq<char>, i: int, ctx: Map<Seq<char>, Seq<char>>) -> Result<
    Seq<char>,
    Seq<char>,
>
    decreases t.len() - i,
{
    if i < 0 || i >= t.len() {
        Ok(Seq::empty())
    } else if opens_at(t, i) {
        let j = find_close(t, i + 2)->0;
        let key = key_at(t, i);
        if ctx.contains_key(key) {
            proof {
                lemma_find_close_bounds(t, i + 2);
            }
            prepend(ctx[key], subst_from(t, j + 2, ctx))
        } else {
            Err(key)
        }
    } else {
        prepend(seq![t[i]], subst_from(t, i + 1, ctx))
    }
}

/// What [`substitute`] gives for `text` under `ctx`.
pub open spec fn spec_substitute(text: Seq<char>, ctx: Map<Seq<char>, Seq<char>>) -> Result<
    Seq<char>,
    Seq<char>,
> {
    subst_from(text, 0, ctx)
}

pub proof fn lemma_find_close_bounds(t: Seq<char>, from: int)
    ensures
        find_close(t, from) matches Some(j) ==> from <= j && j + 1 < t.len() && t[j] == '}'
            && t[j + 1] == '}',
    decreases t.len() - from,
{
    if !(from < 0 || from + 1 >= t.len()) && !(t[from] == '}' && t[from + 1] == '}') {
        lemma_find_close_bounds(t, from + 1);
    }
}

proof fn lemma_prepend_assoc(a: Seq<char>, b: Seq<char>, r: Result<Seq<char>, Seq<char>>)
    ensures
        prepend(a, prepend(b, r)) == prepend(a + b, r),
{
    if let Ok(x) = r {
        assert(a + (b + x) =~= (a + b) + x);
    }
}

/// Index of the first `}}` at or after `from`, if any.
fn find_close_exec(t: &[char], from: usize) -> (r: Option<usize>)
    ensures
        r matches Some(j) ==> find_close(t@, from as int) == Some(j as int),
        r is None ==> find_close(t@, from as int) is None,
{
    if from >= t.len() {
        return None;
    }
    let mut k = from;
    while t.len() - k > 1
        invariant
            from <= k <= t@.len(),
            find_close(t@, from as int) == find_close(t@, k as int),
        decreases t.len() - k,
    {
        if t[k] == '}' && t[k + 1] == '}' {
            return Some(k);
        }
        k += 1;
    }
    None
}

/// Single-pass `{{ name }}` substitution. Whitespace inside the braces is
/// trimmed. The first `{{ name }}` whose `name` is absent from `ctx` aborts
/// with `Err(UnresolvedPlaceholder)`. The output is not re-scanned: a value
/// that contains `{{` after substitution does not retrigger.
pub fn substitute(text: &str, ctx: &Context) -> (r: Result<String, UnresolvedPlaceholder>)
    ensures
        match spec_substitute(text@, ctx.view()) {
            Ok(out) => r matches Ok(s) && s@ == out,
            Err(key) => r matches Err(e) && e.placeholder@ == key,
        },
{
    let t = chars_of(text);
    let n = t.len();
    let mut out = String::new();
    let mut i: usize = 0;
    while i < n
        invariant
            n == t@.len(),
            i <= n,
            t@ == text@,
            spec_substitute(text@, ctx.view()) == prepend(out@, subst_from(t@, i as int, ctx.view())),
        decreases n - i,
    {
        let ghost old_out = out@;
        if i + 1 < n && t[i] == '{' && t[i + 1] == '{' {
            match find_close_exec(t.as_slice(), i + 2) {
                Some(j) => {
                    proof {
                        lemma_find_close_bounds(t@, i + 2);
                    }
                    let (a, b) = trim_bounds(t.as_slice(), i + 2, j);
                    let key = &t.as_slice()[a..b];
                    proof {
                        assert(key@ =~= t@.subrange(a as int, b as int));
                        assert(key@ == key_at(t@, i as int));
                    }
                    match ctx.get_chars(key) {
                        Some(value) => {
                            let vchars = chars_of(value);
                            let mut m: usize = 0;
                            while m < vchars.len()
                                invariant
                                    m <= vchars@.len(),
                                    vchars@ == value@,
                                    out@ == old_out + vchars@.take(m as int),
                                decreases vchars.len() - m,
                            {
                                out.push(vchars[m]);
                                m += 1;
                                assert(vchars@.take(m as int) =~= vchars@.take(m - 1).push(
                                    vchars@[m - 1],
                                ));
                            }
                            proof {
                                assert(vchars@.take(vchars@.len() as int) =~= vchars@);
                                lemma_prepend_assoc(
                                    old_out,
                                    value@,
                                    subst_from(t@, j + 2, ctx.view()),
                                );
                            }
                            i = j + 2;
                            continue;
                        },
                        None => {
                            return Err(UnresolvedPlaceholder { placeholder: string_of(key) });
                        },
                    }
                },
                None => {},
            }
        }
        proof {
            assert(!opens_at(t@, i as int));
            lemma_prepend_assoc(old_out, seq![t@[i as int]], subst_from(t@, i + 1, ctx.view()));
            assert(old_out + seq![t@[i as int]] =~= old_out.push(t@[i as int]));
        }
        out.push(t[i]);
        i += 1;
    }
    proof {
        assert(out@ + Seq::<char>::empty() =~= out@);
    }
    Ok(out)
}


proof fn lemma_plain_from(t: Seq<char>, i: int, ctx: Map<Seq<char>, Seq<char>>)
    requires
        0 <= i <= t.len(),
        forall|j: int| 0 <= j && j + 1 < t.len() ==> !(#[trigger] t[j] == '{' && t[j + 1] == '{'),
    ensures
        subst_from(t, i, ctx) == Ok::<Seq<char>, Seq<char>>(t.subrange(i, t.len() as int)),
    decreases t.len() - i,
{
    if i < t.len() {
        assert(!opens_at(t, i)) by {
            if i + 1 < t.len() {
                assert(!(t[i] == '{' && t[i + 1] == '{'));
            }
        }
        lemma_plain_from(t, i + 1, ctx);
        assert(seq![t[i]] + t.subrange(i + 1, t.len() as int) =~= t.subrange(i, t.len() as int));
    } else {
        assert(t.subrange(i, t.len() as int) =~= Seq::<char>::empty());
    }
}

/// Text that holds no `{{` comes back unchanged, whatever the context.
pub proof fn lemma_substitute_plain(t: Seq<char>, ctx: Map<Seq<char>, Seq<char>>)
    requires
        forall|j: int| 0 <= j && j + 1 < t.len() ==> !(#[trigger] t[j] == '{' && t[j + 1] == '{'),
    ensures
        spec_substitute(t, ctx) == Ok::<Seq<char>, Seq<char>>(t),
{
    lemma_plain_from(t, 0, ctx);
    assert(t.subrange(0, t.len() as int) =~= t);
}

proof fn lemma_close_after_key(t: Seq<char>, key: Seq<char>, from: int)
    requires
        t == seq!['{', '{'] + key + seq!['}', '}'],
        forall|j: int| 0 <= j < key.len() ==> #[trigger] key[j] != '}',
        2 <= from <= key.len() + 2,
    ensures
        find_close(t, from) == Some(key.len() + 2int),
    decreases key.len() + 2 - from,
{
    if from < key.len() + 2 {
        assert(t[from] == key[from - 2]);
        lemma_close_after_key(t, key, from + 1);
    } else {
        assert(t[from] == '}' && t[from + 1] == '}');
    }
}

/// A lone placeholder `{{key}}` is replaced by the key's value exactly as
/// the context holds it, even when that value itself holds placeholders:
/// the output is never scanned again.
pub proof fn lemma_substitute_lone_placeholder(key: Seq<char>, ctx: Map<Seq<char>, Seq<char>>)
    requires
        ctx.contains_key(key),
        trim(key) == key,
        forall|j: int| 0 <= j < key.len() ==> #[trigger] key[j] != '}',
    ensures
        spec_substitute(seq!['{', '{'] + key + seq!['}', '}'], ctx) == Ok::<Seq<char>, Seq<char>>(ctx[key]),
{
    let t = seq!['{', '{'] + key + seq!['}', '}'];
    let n = key.len() as int;
    lemma_close_after_key(t, key, 2);
    assert(t[0] == '{' && t[1] == '{');
    assert(opens_at(t, 0));
    assert(t.subrange(2, n + 2) =~= key);
    assert(key_at(t, 0) == key);
    assert(subst_from(t, n + 4, ctx) == Ok::<Seq<char>, Seq<char>>(Seq::empty()));
    assert(ctx[key] + Seq::<char>::empty() =~= ctx[key]);
}

/// What a context's `get` gives back after `insert(key, value)`: `value`
/// for `key`, and for every other key what it gave before.
pub proof fn lemma_context_read_after_write(before: Context, after: Context, key: Seq<char>, value: Seq<char>)
    requires
        after.view() == before.view().insert(key, value),
    ensures
        after.view().contains_key(key),
        after.view()[key] == value,
        forall|q: Seq<char>|
            q != key ==> (#[trigger] after.view().contains_key(q) == before.view().contains_key(q) && (
            before.view().contains_key(q) ==> after.view()[q] == before.view()[q])),
{
}

} // verus!
