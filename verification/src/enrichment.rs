//! Skill enrichment: which skills join a turn beside the declared ones,
//! and the token overlap that ranks candidate skill bodies.
use vstd::prelude::*;

use crate::text::{chars_of, is_ws, str_eq, string_of};

verus! {

/// Why a skill joined the enriched list.
#[derive(Debug, Clone, Copy, PartialEq, Eq, Structural)]
pub enum EnrichmentOrigin {
    Declared,
    Namespace,
    Grep,
}

impl EnrichmentOrigin {
    /// The origin's name.
    pub fn as_str(&self) -> (r: &'static str)
        ensures
            r@ == match *self {
                EnrichmentOrigin::Declared => "declared"@,
                EnrichmentOrigin::Namespace => "namespace"@,
                EnrichmentOrigin::Grep => "grep"@,
            },
    {
        match self {
            EnrichmentOrigin::Declared => "declared",
            EnrichmentOrigin::Namespace => "namespace",
            EnrichmentOrigin::Grep => "grep",
        }
    }
}

/// The enricher composing the declared, namespace and grep passes.
#[derive(Debug, Clone, Copy, PartialEq, Eq, Structural)]
pub struct CompositeEnricher;

impl CompositeEnricher {
    /// The enricher.
    pub fn new() -> (r: Self)
        ensures
            r == CompositeEnricher,
    {
        CompositeEnricher
    }
}

/// Fewest distinct shared tokens a candidate needs to join by grep.
pub const THRESHOLD: usize = 3;

/// Whether `w` is one of the fixed stop words.
pub open spec fn stop_word(w: Seq<char>) -> bool {
    w == "the"@
        || w == "a"@
        || w == "an"@
        || w == "is"@
        || w == "are"@
        || w == "was"@
        || w == "were"@
        || w == "be"@
        || w == "been"@
        || w == "being"@
        || w == "to"@
        || w == "of"@
        || w == "and"@
        || w == "or"@
        || w == "in"@
        || w == "on"@
        || w == "for"@
        || w == "with"@
        || w == "as"@
        || w == "at"@
        || w == "by"@
        || w == "from"@
        || w == "that"@
        || w == "this"@
        || w == "it"@
        || w == "its"@
        || w == "into"@
        || w == "then"@
        || w == "than"@
        || w == "but"@
        || w == "if"@
        || w == "when"@
        || w == "while"@
        || w == "you"@
        || w == "your"@
        || w == "our"@
        || w == "we"@
        || w == "they"@
        || w == "them"@
        || w == "their"@
        || w == "not"@
        || w == "no"@
        || w == "so"@
        || w == "do"@
        || w == "does"@
        || w == "doing"@
        || w == "has"@
        || w == "have"@
        || w == "had"@
}

/// Whether `w` is one of the fixed stop words (see [`stop_word`]).
pub fn is_stop_word(w: &str) -> (r: bool)
    ensures
        r == stop_word(w@),
{
    str_eq(w, "the")
        || str_eq(w, "a")
        || str_eq(w, "an")
        || str_eq(w, "is")
        || str_eq(w, "are")
        || str_eq(w, "was")
        || str_eq(w, "were")
        || str_eq(w, "be")
        || str_eq(w, "been")
        || str_eq(w, "being")
        || str_eq(w, "to")
        || str_eq(w, "of")
        || str_eq(w, "and")
        || str_eq(w, "or")
        || str_eq(w, "in")
        || str_eq(w, "on")
        || str_eq(w, "for")
        || str_eq(w, "with")
        || str_eq(w, "as")
        || str_eq(w, "at")
        || str_eq(w, "by")
        || str_eq(w, "from")
        || str_eq(w, "that")
        || str_eq(w, "this")
        || str_eq(w, "it")
        || str_eq(w, "its")
        || str_eq(w, "into")
        || str_eq(w, "then")
        || str_eq(w, "than")
        || str_eq(w, "but")
        || str_eq(w, "if")
        || str_eq(w, "when")
        || str_eq(w, "while")
        || str_eq(w, "you")
        || str_eq(w, "your")
        || str_eq(w, "our")
        || str_eq(w, "we")
        || str_eq(w, "they")
        || str_eq(w, "them")
        || str_eq(w, "their")
        || str_eq(w, "not")
        || str_eq(w, "no")
        || str_eq(w, "so")
        || str_eq(w, "do")
        || str_eq(w, "does")
        || str_eq(w, "doing")
        || str_eq(w, "has")
        || str_eq(w, "have")
        || str_eq(w, "had")
}

/// Whether `c` is an ASCII letter or digit.
pub open spec fn is_alnum(c: char) -> bool {
    ('0' <= c && c <= '9') || ('a' <= c && c <= 'z') || ('A' <= c && c <= 'Z')
}

/// The words of `s` and whether it ends inside one: the maximal runs of
/// characters that are not whitespace.
pub open spec fn word_scan(s: Seq<char>) -> (Seq<Seq<char>>, bool)
    decreases s.len(),
{
    if s.len() == 0 {
        (Seq::empty(), false)
    } else {
        let (ws, inside) = word_scan(s.drop_last());
        let c = s.last();
        if is_ws(c) {
            (ws, false)
        } else if inside {
            (ws.update(ws.len() - 1, ws.last().push(c)), true)
        } else {
            (ws.push(seq![c]), true)
        }
    }
}

/// `w` without its leading characters that are not ASCII letters or digits.
pub open spec fn strip_start(w: Seq<char>) -> Seq<char>
    decreases w.len(),
{
    if w.len() == 0 || is_alnum(w[0]) {
        w
    } else {
        strip_start(w.drop_first())
    }
}

/// `w` without its trailing characters that are not ASCII letters or digits.
pub open spec fn strip_end(w: Seq<char>) -> Seq<char>
    decreases w.len(),
{
    if w.len() == 0 || is_alnum(w.last()) {
        w
    } else {
        strip_end(w.drop_last())
    }
}

/// The ASCII lowercase of a character.
pub open spec fn lower_char(c: char) -> char {
    if 'A' <= c && c <= 'Z' {
        ((c as u32) + 32) as char
    } else {
        c
    }
}

/// The token a word gives: stripped at both ends, ASCII-lowercased.
pub open spec fn token_of(w: Seq<char>) -> Seq<char> {
    strip_end(strip_start(w)).map_values(|c: char| lower_char(c))
}

/// The tokens of words: each word's token, when non-empty and not a stop word.
pub open spec fn tokens_of_words(ws: Seq<Seq<char>>) -> Seq<Seq<char>>
    decreases ws.len(),
{
    if ws.len() == 0 {
        Seq::empty()
    } else {
        let r = tokens_of_words(ws.drop_last());
        let t = token_of(ws.last());
        if t.len() > 0 && !stop_word(t) {
            r.push(t)
        } else {
            r
        }
    }
}

/// The tokens of a text.
pub open spec fn tokens(text: Seq<char>) -> Seq<Seq<char>> {
    tokens_of_words(word_scan(text).0)
}

fn word_token(w: &[char]) -> (r: String)
    ensures
        r@ == token_of(w@),
{
    let mut lo: usize = 0;
    assert(w@.subrange(0, w@.len() as int) =~= w@);
    while lo < w.len() && !(('0' <= w[lo] && w[lo] <= '9') || ('a' <= w[lo] && w[lo] <= 'z') || ('A' <= w[lo] && w[lo] <= 'Z'))
        invariant
            lo <= w@.len(),
            strip_start(w@) == strip_start(w@.subrange(lo as int, w@.len() as int)),
        decreases w.len() - lo,
    {
        assert(w@.subrange(lo as int, w@.len() as int).drop_first() =~= w@.subrange(lo + 1, w@.len() as int));
        lo += 1;
    }
    assert(w@.subrange(0, w@.len() as int) =~= w@);
    let ghost s = w@.subrange(lo as int, w@.len() as int);
    assert(strip_start(s) == s);
    let mut hi: usize = w.len();
    while hi > lo && !(('0' <= w[hi - 1] && w[hi - 1] <= '9') || ('a' <= w[hi - 1] && w[hi - 1] <= 'z') || ('A' <= w[hi - 1] && w[hi - 1] <= 'Z'))
        invariant
            lo <= hi <= w@.len(),
            s == w@.subrange(lo as int, w@.len() as int),
            strip_end(s) == strip_end(w@.subrange(lo as int, hi as int)),
        decreases hi,
    {
        assert(w@.subrange(lo as int, hi as int).drop_last() =~= w@.subrange(lo as int, hi - 1));
        hi -= 1;
    }
    let ghost t = w@.subrange(lo as int, hi as int);
    assert(strip_end(t) == t);
    let mut out = String::new();
    let mut i = lo;
    while i < hi
        invariant
            lo <= i <= hi <= w@.len(),
            out@ =~= w@.subrange(lo as int, i as int).map_values(|c: char| lower_char(c)),
        decreases hi - i,
    {
        let c = w[i];
        let d = if 'A' <= c && c <= 'Z' { ((c as u32) + 32) as u8 as char } else { c };
        assert(d == lower_char(c));
        out.push(d);
        i += 1;
        assert(out@ =~= w@.subrange(lo as int, i as int).map_values(|c: char| lower_char(c)));
    }
    out
}

/// The tokens of `text`: its whitespace-separated words, stripped of
/// leading and trailing characters that are not ASCII letters or digits,
/// ASCII-lowercased, without empty ones and stop words (see [`tokens`]).
pub fn tokenize(text: &str) -> (r: Vec<String>)
    ensures
        crate::bash::strings_view(r@) == tokens(text@),
{
    let v = chars_of(text);
    let mut words: Vec<Vec<char>> = Vec::new();
    let mut inside = false;
    let mut i: usize = 0;
    while i < v.len()
        invariant
            i <= v@.len(),
            v@ == text@,
            words@.map_values(|w: Vec<char>| w@) == word_scan(v@.take(i as int)).0,
            inside == word_scan(v@.take(i as int)).1,
            inside ==> words@.len() > 0,
        decreases v.len() - i,
    {
        let ghost before = words@.map_values(|w: Vec<char>| w@);
        proof {
            assert(v@.take(i + 1).drop_last() =~= v@.take(i as int));
            assert(v@.take(i + 1).last() == v@[i as int]);
        }
        let c = v[i];
        if crate::text::is_whitespace(c) {
            inside = false;
        } else if inside {
            let last = words.len() - 1;
            let mut w = words.remove(last);
            w.push(c);
            words.push(w);
            assert(words@.map_values(|w: Vec<char>| w@) =~= before.update(before.len() - 1, before.last().push(c)));
        } else {
            let mut w: Vec<char> = Vec::new();
            w.push(c);
            words.push(w);
            inside = true;
            assert(words@.map_values(|w: Vec<char>| w@) =~= before.push(seq![c]));
        }
        i += 1;
    }
    assert(v@.take(v@.len() as int) =~= v@);
    let ghost wv = words@.map_values(|w: Vec<char>| w@);
    let mut out: Vec<String> = Vec::new();
    let mut k: usize = 0;
    while k < words.len()
        invariant
            k <= words@.len(),
            wv == words@.map_values(|w: Vec<char>| w@),
            crate::bash::strings_view(out@) == tokens_of_words(wv.take(k as int)),
        decreases words.len() - k,
    {
        proof {
            assert(wv.take(k + 1).drop_last() =~= wv.take(k as int));
            assert(wv.take(k + 1).last() == words@[k as int]@);
        }
        let t = word_token(words[k].as_slice());
        let tl = chars_of(t.as_str());
        if tl.len() > 0 && !is_stop_word(t.as_str()) {
            let ghost before = out@;
            out.push(t);
            assert(crate::bash::strings_view(out@) =~= crate::bash::strings_view(before).push(t@));
        }
        k += 1;
    }
    assert(wv.take(wv.len() as int) =~= wv);
    out
}


/// The tokens without repeats, in order of first appearance.
pub open spec fn distinct_tokens(ts: Seq<Seq<char>>) -> Seq<Seq<char>>
    decreases ts.len(),
{
    if ts.len() == 0 {
        Seq::empty()
    } else {
        let r = distinct_tokens(ts.drop_last());
        if r.contains(ts.last()) {
            r
        } else {
            r.push(ts.last())
        }
    }
}

/// How many of `ts` occur in `pool`.
pub open spec fn shared_count(ts: Seq<Seq<char>>, pool: Seq<Seq<char>>) -> nat
    decreases ts.len(),
{
    if ts.len() == 0 {
        0
    } else {
        shared_count(ts.drop_last(), pool) + if pool.contains(ts.last()) { 1nat } else { 0nat }
    }
}

/// Every token of the declared bodies and of the prompt.
pub open spec fn declared_pool(bodies: Seq<Seq<char>>, prompt: Seq<char>) -> Seq<Seq<char>>
    decreases bodies.len(),
{
    if bodies.len() == 0 {
        tokens(prompt)
    } else {
        declared_pool(bodies.drop_last(), prompt) + tokens(bodies.last())
    }
}

fn seq_contains(v: &Vec<String>, t: &str) -> (r: bool)
    ensures
        r == crate::bash::strings_view(v@).contains(t@),
{
    let mut i: usize = 0;
    while i < v.len()
        invariant
            i <= v@.len(),
            forall|j: int| 0 <= j < i ==> crate::bash::strings_view(v@)[j] != t@,
        decreases v.len() - i,
    {
        if str_eq(v[i].as_str(), t) {
            assert(crate::bash::strings_view(v@)[i as int] == t@);
            return true;
        }
        i += 1;
    }
    false
}

fn pool_of(bodies: &Vec<String>, prompt: &str) -> (r: Vec<String>)
    ensures
        crate::bash::strings_view(r@) == declared_pool(crate::bash::strings_view(bodies@), prompt@),
{
    let ghost bv = crate::bash::strings_view(bodies@);
    let mut pool = tokenize(prompt);
    let mut i: usize = 0;
    while i < bodies.len()
        invariant
            i <= bodies@.len(),
            bv == crate::bash::strings_view(bodies@),
            crate::bash::strings_view(pool@) == declared_pool(bv.take(i as int), prompt@),
        decreases bodies.len() - i,
    {
        proof {
            assert(bv.take(i + 1).drop_last() =~= bv.take(i as int));
            assert(bv.take(i + 1).last() == bodies@[i as int]@);
        }
        let ts = tokenize(bodies[i].as_str());
        let ghost before = crate::bash::strings_view(pool@);
        let ghost tv = crate::bash::strings_view(ts@);
        let mut k: usize = 0;
        while k < ts.len()
            invariant
                k <= ts@.len(),
                tv == crate::bash::strings_view(ts@),
                crate::bash::strings_view(pool@) == before + tv.take(k as int),
            decreases ts.len() - k,
        {
            let ghost pv = pool@;
            let t = ts[k].as_str().to_owned();
            pool.push(t);
            proof {
                assert(crate::bash::strings_view(pool@) =~= crate::bash::strings_view(pv).push(t@));
                assert(tv.take(k + 1) =~= tv.take(k as int).push(tv[k as int]));
            }
            k += 1;
        }
        assert(tv.take(tv.len() as int) =~= tv);
        i += 1;
    }
    assert(bv.take(bv.len() as int) =~= bv);
    pool
}


/// The distinct tokens of a candidate body and how many of them the
/// declared bodies and the prompt share.
pub open spec fn overlap(body: Seq<char>, pool: Seq<Seq<char>>) -> (nat, nat) {
    let d = distinct_tokens(tokens(body));
    (shared_count(d, pool), d.len())
}

fn overlap_of(body: &str, pool: &Vec<String>) -> (r: (usize, usize))
    ensures
        (r.0 as nat, r.1 as nat) == overlap(body@, crate::bash::strings_view(pool@)),
{
    let ts = tokenize(body);
    let ghost tv = crate::bash::strings_view(ts@);
    let ghost pv = crate::bash::strings_view(pool@);
    let mut seen: Vec<String> = Vec::new();
    let mut shared: usize = 0;
    let mut i: usize = 0;
    while i < ts.len()
        invariant
            i <= ts@.len(),
            tv == crate::bash::strings_view(ts@),
            pv == crate::bash::strings_view(pool@),
            crate::bash::strings_view(seen@) == distinct_tokens(tv.take(i as int)),
            shared as nat == shared_count(distinct_tokens(tv.take(i as int)), pv),
            shared <= seen@.len() <= i,
        decreases ts.len() - i,
    {
        proof {
            assert(tv.take(i + 1).drop_last() =~= tv.take(i as int));
            assert(tv.take(i + 1).last() == ts@[i as int]@);
        }
        let t = ts[i].as_str();
        if !seq_contains(&seen, t) {
            let ghost sv = seen@;
            let ghost d = distinct_tokens(tv.take(i as int));
            seen.push(t.to_owned());
            proof {
                assert(crate::bash::strings_view(seen@) =~= crate::bash::strings_view(sv).push(t@));
                assert(d.push(t@).drop_last() =~= d);
            }
            if seq_contains(pool, t) {
                shared += 1;
            }
        }
        i += 1;
    }
    assert(tv.take(tv.len() as int) =~= tv);
    (shared, seen.len())
}

/// One candidate that shares enough tokens: its index, how many distinct
/// tokens it shares, and how many distinct tokens its body has.
pub type Overlap = (usize, usize, usize);

/// The candidates (by index, in order) whose bodies have tokens and share
/// at least [`THRESHOLD`] distinct tokens with the declared bodies and the
/// prompt, with their counts.
pub open spec fn grep_overlaps(bodies: Seq<Seq<char>>, pool: Seq<Seq<char>>, n: int) -> Seq<(nat, nat, nat)>
    decreases n,
{
    if n <= 0 {
        Seq::empty()
    } else {
        let r = grep_overlaps(bodies, pool, n - 1);
        let (m, total) = overlap(bodies[n - 1], pool);
        if total > 0 && m >= THRESHOLD {
            r.push(((n - 1) as nat, m, total))
        } else {
            r
        }
    }
}

/// The candidates that join by grep before ranking (see [`grep_overlaps`]);
/// each one's score is its shared count over its token count.
pub fn grep_candidates(declared_bodies: &Vec<String>, prompt: &str, bodies: &Vec<String>) -> (r: Vec<Overlap>)
    ensures
        r@.map_values(|o: Overlap| (o.0 as nat, o.1 as nat, o.2 as nat)) == grep_overlaps(
            crate::bash::strings_view(bodies@),
            declared_pool(crate::bash::strings_view(declared_bodies@), prompt@),
            bodies@.len() as int,
        ),
{
    let pool = pool_of(declared_bodies, prompt);
    let ghost bv = crate::bash::strings_view(bodies@);
    let ghost pv = crate::bash::strings_view(pool@);
    let mut out: Vec<Overlap> = Vec::new();
    let mut i: usize = 0;
    while i < bodies.len()
        invariant
            i <= bodies@.len(),
            bv == crate::bash::strings_view(bodies@),
            pv == crate::bash::strings_view(pool@),
            out@.map_values(|o: Overlap| (o.0 as nat, o.1 as nat, o.2 as nat)) == grep_overlaps(bv, pv, i as int),
        decreases bodies.len() - i,
    {
        assert(bv[i as int] == bodies@[i as int]@);
        let (m, total) = overlap_of(bodies[i].as_str(), &pool);
        if total > 0 && m >= THRESHOLD {
            let ghost before = out@;
            out.push((i, m, total));
            assert(out@.map_values(|o: Overlap| (o.0 as nat, o.1 as nat, o.2 as nat)) =~= before.map_values(
                |o: Overlap| (o.0 as nat, o.1 as nat, o.2 as nat),
            ).push((i as nat, m as nat, total as nat)));
        }
        i += 1;
    }
    out
}


/// `s` without its leading slashes.
pub open spec fn strip_slashes(s: Seq<char>) -> Seq<char>
    decreases s.len(),
{
    if s.len() > 0 && s[0] == '/' {
        strip_slashes(s.drop_first())
    } else {
        s
    }
}

/// How a skill's audit path is formed from its root's display path and its
/// path inside the root.
#[derive(Debug, Clone, PartialEq, Eq)]
pub enum SourcePath {
    /// The inner path as it is: it already starts with the display path.
    Inner(String),
    /// The display path alone: the inner path is only slashes.
    Display(String),
    /// The display path joined with the inner path stripped of its leading
    /// slashes.
    Joined(String, String),
}

/// The audit path of a skill whose root displays as `display` and whose
/// path inside the root is `inner` (see [`SourcePath`]).
pub fn source_path_of(display: &str, inner: &str) -> (r: SourcePath)
    ensures
        crate::web_fetch::starts_with(inner@, display@) ==> (r matches SourcePath::Inner(p) && p@ == inner@),
        !crate::web_fetch::starts_with(inner@, display@) && strip_slashes(inner@).len() == 0
            ==> (r matches SourcePath::Display(d) && d@ == display@),
        !crate::web_fetch::starts_with(inner@, display@) && strip_slashes(inner@).len() > 0
            ==> (r matches SourcePath::Joined(d, t) && d@ == display@ && t@ == strip_slashes(inner@)),
{
    let dv = chars_of(display);
    let iv = chars_of(inner);
    if dv.len() <= iv.len() && crate::text::chars_eq(&iv.as_slice()[0..dv.len()], dv.as_slice()) {
        assert(iv@.subrange(0, dv@.len() as int) =~= inner@.subrange(0, display@.len() as int));
        return SourcePath::Inner(inner.to_owned());
    }
    proof {
        if dv@.len() <= iv@.len() {
            assert(iv@.subrange(0, dv@.len() as int) =~= inner@.subrange(0, display@.len() as int));
        }
    }
    let mut i: usize = 0;
    assert(inner@.subrange(0, inner@.len() as int) =~= inner@);
    while i < iv.len() && iv[i] == '/'
        invariant
            i <= iv@.len(),
            iv@ == inner@,
            strip_slashes(inner@) == strip_slashes(inner@.subrange(i as int, inner@.len() as int)),
        decreases iv.len() - i,
    {
        assert(inner@.subrange(i as int, inner@.len() as int).drop_first() =~= inner@.subrange(i + 1, inner@.len() as int));
        i += 1;
    }
    if i == iv.len() {
        assert(inner@.subrange(i as int, inner@.len() as int).len() == 0);
        SourcePath::Display(display.to_owned())
    } else {
        let t = string_of(&iv.as_slice()[i..iv.len()]);
        assert(t@ =~= inner@.subrange(i as int, inner@.len() as int));
        SourcePath::Joined(display.to_owned(), t)
    }
}


/// Every token is non-empty and no stop word.
pub proof fn lemma_tokens_kept(text: Seq<char>)
    ensures
        forall|i: int| 0 <= i < tokens(text).len() ==> #[trigger] tokens(text)[i].len() > 0 && !stop_word(tokens(text)[i]),
{
    lemma_tokens_of_words_kept(word_scan(text).0);
}

proof fn lemma_tokens_of_words_kept(ws: Seq<Seq<char>>)
    ensures
        forall|i: int| 0 <= i < tokens_of_words(ws).len() ==> #[trigger] tokens_of_words(ws)[i].len() > 0 && !stop_word(
            tokens_of_words(ws)[i],
        ),
    decreases ws.len(),
{
    if ws.len() > 0 {
        let r = tokens_of_words(ws.drop_last());
        let t = token_of(ws.last());
        lemma_tokens_of_words_kept(ws.drop_last());
        if t.len() > 0 && !stop_word(t) {
            assert(tokens_of_words(ws) == r.push(t));
            assert forall|i: int| 0 <= i < r.push(t).len() implies #[trigger] r.push(t)[i].len() > 0 && !stop_word(
                r.push(t)[i],
            ) by {
                if i < r.len() {
                    assert(r.push(t)[i] == r[i]);
                }
            }
        } else {
            assert(tokens_of_words(ws) == r);
        }
    }
}

} // verus!
