//! The text logic of the file tools: reading a line span, replacing one,
//! grepping lines, and checking a file for a marker.
use vstd::prelude::*;

use crate::assertions::{regex_error, regex_finds, regex_is_match};
use crate::conversation::join_lines;
use crate::range::LineRange;
use crate::text::{chars_of, contains_seq, dec, find_chars, push_decimal_usize, push_str, seq_lt, string_of};

verus! {

/// The arguments of `fs.read`: a path and, optionally, the lines to read.
#[derive(Debug, Clone, PartialEq, Eq)]
pub struct FsReadArgs {
    pub path: String,
    pub range: Option<LineRange>,
}

/// The arguments of `fs.edit`: a path, the lines to replace and what
/// replaces them.
#[derive(Debug, Clone, PartialEq, Eq)]
pub struct FsEditArgs {
    pub path: String,
    pub range: LineRange,
    pub replacement: String,
}

/// The arguments of `fs.list`: a directory and, optionally, a glob.
#[derive(Debug, Clone, PartialEq, Eq)]
pub struct FsListArgs {
    pub path: String,
    pub glob: Option<String>,
}

/// The arguments of `fs.grep`: a path, a pattern and, optionally, a glob.
#[derive(Debug, Clone, PartialEq, Eq)]
pub struct FsGrepArgs {
    pub path: String,
    pub pattern: String,
    pub glob: Option<String>,
}

/// The arguments of `fs.absent`: a path and the text that must not occur.
#[derive(Debug, Clone, PartialEq, Eq)]
pub struct FsAbsentArgs {
    pub path: String,
    pub needle: String,
}

/// `s` split at each newline (`str::split('\n')`): one more piece than
/// there are newlines.
pub open spec fn split_lines(s: Seq<char>) -> Seq<Seq<char>>
    decreases s.len(),
{
    if s.len() == 0 {
        seq![Seq::empty()]
    } else {
        let r = split_lines(s.drop_last());
        if s.last() == '\n' {
            r.push(Seq::empty())
        } else {
            r.update(r.len() - 1, r.last().push(s.last()))
        }
    }
}

/// [`split_lines`] never gives an empty list.
pub proof fn lemma_split_nonempty(s: Seq<char>)
    ensures
        split_lines(s).len() >= 1,
    decreases s.len(),
{
    if s.len() > 0 {
        lemma_split_nonempty(s.drop_last());
    }
}

/// Joining the pieces of a split with newlines gives the text back.
pub proof fn lemma_join_split(s: Seq<char>)
    ensures
        join_lines(split_lines(s)) == s,
    decreases s.len(),
{
    if s.len() > 0 {
        let p = s.drop_last();
        lemma_join_split(p);
        lemma_split_nonempty(p);
        let r = split_lines(p);
        if s.last() == '\n' {
            let q = r.push(Seq::<char>::empty());
            assert(q.drop_last() =~= r);
            assert(join_lines(q) == join_lines(r) + seq!['\n'] + Seq::<char>::empty());
            assert(s =~= p.push('\n'));
            assert(join_lines(q) =~= s);
        } else {
            let q = r.update(r.len() - 1, r.last().push(s.last()));
            if r.len() == 1 {
                assert(q.len() == 1);
                assert(q[0] =~= s);
            } else {
                assert(q.drop_last() =~= r.drop_last());
                assert(join_lines(q) == join_lines(r.drop_last()) + seq!['\n'] + r.last().push(s.last()));
                assert(join_lines(r) == join_lines(r.drop_last()) + seq!['\n'] + r.last());
                assert(join_lines(q) =~= join_lines(r).push(s.last()));
                assert(s =~= p.push(s.last()));
            }
        }
    }
}

/// Splits `s` at each newline (see [`split_lines`]).
pub fn split_text(s: &str) -> (r: Vec<String>)
    ensures
        crate::bash::strings_view(r@) == split_lines(s@),
{
    let v = chars_of(s);
    let mut out: Vec<String> = Vec::new();
    let mut cur = String::new();
    let mut i: usize = 0;
    while i < v.len()
        invariant
            i <= v@.len(),
            v@ == s@,
            crate::bash::strings_view(out@).push(cur@) == split_lines(v@.take(i as int)),
        decreases v.len() - i,
    {
        let ghost before = crate::bash::strings_view(out@).push(cur@);
        proof {
            assert(v@.take(i + 1).drop_last() =~= v@.take(i as int));
            assert(v@.take(i + 1).last() == v@[i as int]);
        }
        if v[i] == '\n' {
            let done = cur;
            out.push(done);
            cur = String::new();
            assert(crate::bash::strings_view(out@).push(cur@) =~= before.push(Seq::<char>::empty()));
        } else {
            cur.push(v[i]);
            assert(crate::bash::strings_view(out@).push(cur@) =~= before.update(
                before.len() - 1,
                before.last().push(v@[i as int]),
            ));
        }
        i += 1;
    }
    assert(v@.take(v@.len() as int) =~= v@);
    out.push(cur);
    out
}

fn join_text(parts: &[String]) -> (r: String)
    ensures
        r@ == join_lines(crate::bash::strings_view(parts@)),
{
    let ghost pv = crate::bash::strings_view(parts@);
    let mut out = String::new();
    let mut i: usize = 0;
    while i < parts.len()
        invariant
            i <= parts@.len(),
            pv == crate::bash::strings_view(parts@),
            out@ == join_lines(pv.take(i as int)),
        decreases parts.len() - i,
    {
        proof {
            assert(pv.take(i + 1).drop_last() =~= pv.take(i as int));
            assert(pv.take(i + 1).last() == parts@[i as int]@);
        }
        if i > 0 {
            out.push('\n');
        }
        push_str(&mut out, parts[i].as_str());
        proof {
            if i == 0 {
                assert(pv.take(1).len() == 1);
                assert(out@ =~= join_lines(pv.take(1)));
            } else {
                assert(out@ =~= join_lines(pv.take(i + 1)));
            }
        }
        i += 1;
    }
    assert(pv.take(pv.len() as int) =~= pv);
    out
}

/// The lines `start..end` (0-indexed, end exclusive) of `body`, joined by
/// newlines; or, when `end` is past the last line, the number of lines.
pub open spec fn line_span(body: Seq<char>, start: int, end: int) -> Result<Seq<char>, nat> {
    let lines = split_lines(body);
    if end > lines.len() {
        Err(lines.len())
    } else {
        Ok(join_lines(lines.subrange(start, end)))
    }
}

/// The lines `range` selects from `body` (see [`line_span`]); `Err` holds
/// the number of lines when the range ends past them.
pub fn read_span(body: &str, range: &LineRange) -> (r: Result<String, usize>)
    requires
        range.0.start <= range.0.end,
    ensures
        match line_span(body@, range.0.start as int, range.0.end as int) {
            Ok(t) => r matches Ok(s) && s@ == t,
            Err(n) => r matches Err(m) && m == n,
        },
{
    let lines = split_text(body);
    let total = lines.len();
    if range.0.end > total {
        return Err(total);
    }
    let start = range.0.start;
    let end = range.0.end;
    let r = join_text(&lines.as_slice()[start..end]);
    assert(crate::bash::strings_view(lines@.subrange(start as int, end as int)) =~= split_lines(body@).subrange(
        start as int,
        end as int,
    ));
    Ok(r)
}

/// The pieces of a replacement text: none for an empty one.
pub open spec fn replacement_lines(replacement: Seq<char>) -> Seq<Seq<char>> {
    if replacement.len() == 0 {
        Seq::empty()
    } else {
        split_lines(replacement)
    }
}

/// `body` with the lines `start..end` replaced by the lines of
/// `replacement`, keeping whether it ended in a newline; or, when `end` is
/// past the last line, the number of lines.
pub open spec fn spliced(body: Seq<char>, start: int, end: int, replacement: Seq<char>) -> Result<Seq<char>, nat> {
    let trailing = body.len() > 0 && body.last() == '\n';
    let text = if trailing { body.drop_last() } else { body };
    let lines = split_lines(text);
    if end > lines.len() {
        Err(lines.len())
    } else {
        let joined = join_lines(lines.subrange(0, start) + replacement_lines(replacement) + lines.subrange(
            end,
            lines.len() as int,
        ));
        Ok(if trailing { joined.push('\n') } else { joined })
    }
}

/// Replaces the lines `range` selects in `body` with the lines of
/// `replacement` (see [`spliced`]); also gives how many lines went in.
/// `Err` holds the number of lines when the range ends past them.
pub fn splice_body(body: &str, range: &LineRange, replacement: &str) -> (r: Result<(String, usize), usize>)
    requires
        range.0.start <= range.0.end,
    ensures
        match spliced(body@, range.0.start as int, range.0.end as int, replacement@) {
            Ok(t) => r matches Ok((s, n)) && s@ == t && n == replacement_lines(replacement@).len(),
            Err(m) => r matches Err(k) && k == m,
        },
{
    let v = chars_of(body);
    let trailing = v.len() > 0 && v[v.len() - 1] == '\n';
    let text = if trailing { string_of(&v.as_slice()[0..v.len() - 1]) } else { string_of(v.as_slice()) };
    proof {
        if trailing {
            assert(text@ =~= body@.drop_last());
        }
    }
    let lines = split_text(text.as_str());
    let total = lines.len();
    if range.0.end > total {
        return Err(total);
    }
    let new_lines: Vec<String> = if crate::text::byte_len(replacement) == 0 {
        Vec::new()
    } else {
        split_text(replacement)
    };
    proof {
        if replacement@.len() == 0 {
            crate::text::lemma_utf8_len_encode(replacement@);
        } else {
            crate::text::lemma_utf8_len_encode(replacement@);
            crate::text::lemma_utf8_len_positive(replacement@);
        }
    }
    let n_new = new_lines.len();
    let mut all: Vec<String> = Vec::new();
    let mut i: usize = 0;
    while i < range.0.start
        invariant
            i <= range.0.start <= range.0.end <= lines@.len(),
            all@ == lines@.subrange(0, i as int),
        decreases range.0.start - i,
    {
        all.push(lines[i].clone());
        i += 1;
        assert(all@ =~= lines@.subrange(0, i as int));
    }
    let ghost head = all@;
    let mut j: usize = 0;
    while j < new_lines.len()
        invariant
            j <= new_lines@.len(),
            all@ == head + new_lines@.subrange(0, j as int),
        decreases new_lines.len() - j,
    {
        all.push(new_lines[j].clone());
        j += 1;
        assert(all@ =~= head + new_lines@.subrange(0, j as int));
    }
    assert(new_lines@.subrange(0, new_lines@.len() as int) =~= new_lines@);
    let ghost mid = all@;
    let mut k: usize = range.0.end;
    while k < lines.len()
        invariant
            range.0.end <= k <= lines@.len(),
            all@ == mid + lines@.subrange(range.0.end as int, k as int),
        decreases lines.len() - k,
    {
        all.push(lines[k].clone());
        k += 1;
        assert(all@ =~= mid + lines@.subrange(range.0.end as int, k as int));
    }
    proof {
        let lv = crate::bash::strings_view(lines@);
        let nv = crate::bash::strings_view(new_lines@);
        assert(lv == split_lines(text@));
        assert(nv =~= replacement_lines(replacement@));
        assert(all@ =~= lines@.subrange(0, range.0.start as int) + new_lines@ + lines@.subrange(
            range.0.end as int,
            lines@.len() as int,
        ));
        assert(crate::bash::strings_view(all@) =~= lv.subrange(0, range.0.start as int) + nv + lv.subrange(
            range.0.end as int,
            lv.len() as int,
        ));
    }
    let mut joined = join_text(all.as_slice());
    if trailing {
        joined.push('\n');
    }
    Ok((joined, n_new))
}

/// The summary of an edit.
pub open spec fn edit_summary_text(path: Seq<char>, start: nat, end: nat, n: nat) -> Seq<char> {
    "edited "@ + path + ": replaced lines "@ + dec(start) + "-"@ + dec(end) + " with "@ + dec(n) + " lines"@
}

/// The summary of an edit of the lines `start`..=`end` (1-indexed) of
/// `path` that put in `n` lines.
pub fn edit_summary(path: &str, start: usize, end: usize, n: usize) -> (r: String)
    ensures
        r@ == edit_summary_text(path@, start as nat, end as nat, n as nat),
{
    let mut out = String::new();
    push_str(&mut out, "edited ");
    push_str(&mut out, path);
    push_str(&mut out, ": replaced lines ");
    push_decimal_usize(&mut out, start);
    push_str(&mut out, "-");
    push_decimal_usize(&mut out, end);
    push_str(&mut out, " with ");
    push_decimal_usize(&mut out, n);
    push_str(&mut out, " lines");
    out
}

/// The summary of creating `path` with `contents`.
pub open spec fn created_summary_text(path: Seq<char>, contents: Seq<char>) -> Seq<char> {
    "created "@ + path + " with "@ + dec(replacement_lines(contents).len()) + " lines"@
}

/// The summary of creating `path` with `contents`: its number of lines
/// (none for empty contents, else one more than its newlines).
pub fn created_summary(path: &str, contents: &str) -> (r: String)
    ensures
        r@ == created_summary_text(path@, contents@),
{
    let n: usize = if crate::text::byte_len(contents) == 0 {
        0
    } else {
        split_text(contents).len()
    };
    proof {
        crate::text::lemma_utf8_len_encode(contents@);
        if contents@.len() > 0 {
            crate::text::lemma_utf8_len_positive(contents@);
        }
    }
    let mut out = String::new();
    push_str(&mut out, "created ");
    push_str(&mut out, path);
    push_str(&mut out, " with ");
    push_decimal_usize(&mut out, n);
    push_str(&mut out, " lines");
    out
}

/// One matching line: its 1-based number and its text.
#[derive(Debug, Clone, PartialEq, Eq)]
pub struct GrepMatch {
    pub line: usize,
    pub text: String,
}

/// The number of matches over the files grepped (path, matches).
pub open spec fn total_matches(results: Seq<(String, Vec<GrepMatch>)>) -> nat
    decreases results.len(),
{
    if results.len() == 0 {
        0
    } else {
        total_matches(results.drop_last()) + results.last().1@.len()
    }
}

/// The `total` of a grep envelope: the number of matches over all files,
/// held at `usize::MAX`.
pub fn grep_total(results: &Vec<(String, Vec<GrepMatch>)>) -> (r: usize)
    ensures
        r == if total_matches(results@) > usize::MAX { usize::MAX } else { total_matches(results@) as usize },
{
    let mut total: usize = 0;
    let mut i: usize = 0;
    while i < results.len()
        invariant
            i <= results@.len(),
            total == if total_matches(results@.take(i as int)) > usize::MAX {
                usize::MAX
            } else {
                total_matches(results@.take(i as int)) as usize
            },
        decreases results.len() - i,
    {
        proof {
            assert(results@.take(i + 1).drop_last() =~= results@.take(i as int));
            assert(results@.take(i + 1).last() == results@[i as int]);
        }
        total = total.saturating_add(results[i].1.len());
        i += 1;
    }
    assert(results@.take(results@.len() as int) =~= results@);
    total
}

/// The matching lines of `body`: each line (split at newlines) that
/// `pattern` matches, with its 1-based number.
pub open spec fn grep_spec(body: Seq<char>, pattern: Seq<char>, n: int) -> Seq<(nat, Seq<char>)>
    decreases n,
{
    if n <= 0 {
        Seq::empty()
    } else {
        let prev = grep_spec(body, pattern, n - 1);
        let line = split_lines(body)[n - 1];
        if regex_finds(pattern, line) {
            prev.push((n as nat, line))
        } else {
            prev
        }
    }
}

/// The view of grep matches.
pub open spec fn matches_view(m: Seq<GrepMatch>) -> Seq<(nat, Seq<char>)> {
    m.map_values(|g: GrepMatch| (g.line as nat, g.text@))
}

/// The lines of `body` that `pattern` matches (see [`grep_spec`]).
pub(crate) fn grep_lines(body: &str, pattern: &str) -> (r: Vec<GrepMatch>)
    requires
        regex_error(pattern@) is None,
    ensures
        matches_view(r@) == grep_spec(body@, pattern@, split_lines(body@).len() as int),
{
    let lines = split_text(body);
    let ghost lv = split_lines(body@);
    let mut out: Vec<GrepMatch> = Vec::new();
    let mut i: usize = 0;
    while i < lines.len()
        invariant
            i <= lines@.len(),
            crate::bash::strings_view(lines@) == lv,
            lv == split_lines(body@),
            regex_error(pattern@) is None,
            matches_view(out@) == grep_spec(body@, pattern@, i as int),
        decreases lines.len() - i,
    {
        assert(lv[i as int] == lines@[i as int]@);
        if regex_is_match(pattern, lines[i].as_str()) {
            let ghost before = matches_view(out@);
            out.push(GrepMatch { line: i + 1, text: lines[i].clone() });
            assert(matches_view(out@) =~= before.push(((i + 1) as nat, lv[i as int])));
        }
        i += 1;
    }
    out
}

/// The lines of `body` that the regular expression `pattern` matches, each
/// with its 1-based number (see [`grep_spec`]); `Err` with the compiler's
/// message when `pattern` is not a valid expression.
pub fn grep_body(body: &str, pattern: &str) -> (r: Result<Vec<GrepMatch>, String>)
    ensures
        match regex_error(pattern@) {
            Some(e) => r matches Err(m) && m@ == e,
            None => r matches Ok(v) && matches_view(v@) == grep_spec(body@, pattern@, split_lines(body@).len() as int),
        },
{
    match crate::assertions::regex_compile_error(pattern) {
        Some(m) => Err(m),
        None => Ok(grep_lines(body, pattern)),
    }
}

/// The verdict of the marker check: `paused` when the body holds the
/// needle, `cleared` when it does not.
pub fn absent_verdict(body: &str, needle: &str) -> (r: &'static str)
    ensures
        r@ == if contains_seq(body@, needle@) { "paused"@ } else { "cleared"@ },
{
    let b = chars_of(body);
    let n = chars_of(needle);
    if find_chars(b.as_slice(), n.as_slice()).is_some() {
        "paused"
    } else {
        "cleared"
    }
}

/// Whether a read error's message says the file is not UTF-8.
pub open spec fn utf8_message(message: Seq<char>) -> bool {
    contains_seq(message, "UTF-8"@) || contains_seq(message, "utf-8"@) || contains_seq(message, "invalid utf"@)
}

/// Whether a read error's message says the file is not UTF-8 (see [`utf8_message`]).
pub fn is_utf8_error(message: &str) -> (r: bool)
    ensures
        r == utf8_message(message@),
{
    let m = chars_of(message);
    let a = chars_of("UTF-8");
    let b = chars_of("utf-8");
    let c = chars_of("invalid utf");
    find_chars(m.as_slice(), a.as_slice()).is_some() || find_chars(m.as_slice(), b.as_slice()).is_some()
        || find_chars(m.as_slice(), c.as_slice()).is_some()
}

/// Whether a read error's message names `UTF-8`, the test `fs.read` makes.
pub fn names_utf8(message: &str) -> (r: bool)
    ensures
        r == contains_seq(message@, "UTF-8"@),
{
    let m = chars_of(message);
    let a = chars_of("UTF-8");
    find_chars(m.as_slice(), a.as_slice()).is_some()
}

/// Whether a resolved path lies under the root: its text starts with the root's.
pub fn under_root(resolved: &str, root: &str) -> (r: bool)
    ensures
        r == (root@.len() <= resolved@.len() && resolved@.subrange(0, root@.len() as int) == root@),
{
    let a = chars_of(resolved);
    let b = chars_of(root);
    if b.len() > a.len() {
        return false;
    }
    let r = crate::text::chars_eq(&a.as_slice()[0..b.len()], b.as_slice());
    assert(a@.subrange(0, b@.len() as int) =~= resolved@.subrange(0, root@.len() as int));
    r
}

/// Whether a grep glob recurses: its first segment is `**`.
pub fn glob_recurses(glob: Option<&str>) -> (r: bool)
    ensures
        r == match glob { Some(g) => g@.len() >= 2 && g@[0] == '*' && g@[1] == '*', None => false },
{
    match glob {
        Some(g) => {
            let v = chars_of(g);
            v.len() >= 2 && v[0] == '*' && v[1] == '*'
        },
        None => false,
    }
}


/// One listed entry: its name, whether it is a directory, and a file's size.
#[derive(Debug, Clone, PartialEq, Eq)]
pub struct ListEntry {
    pub name: String,
    pub is_dir: bool,
    pub size: Option<u64>,
}

/// Whether `a` lists before `b`: directories first, then by name.
pub open spec fn lists_before(a: ListEntry, b: ListEntry) -> bool {
    (a.is_dir && !b.is_dir) || (a.is_dir == b.is_dir && seq_lt(a.name@, b.name@))
}

/// `x` put into `sorted` after every entry it does not list before.
pub open spec fn insert_listed(sorted: Seq<ListEntry>, x: ListEntry) -> Seq<ListEntry>
    decreases sorted.len(),
{
    if sorted.len() == 0 {
        seq![x]
    } else if lists_before(x, sorted.last()) {
        insert_listed(sorted.drop_last(), x).push(sorted.last())
    } else {
        sorted.push(x)
    }
}

/// The entries in listing order, entries that tie keeping their order
/// (a stable sort by [`lists_before`]).
pub open spec fn listing_order(entries: Seq<ListEntry>) -> Seq<ListEntry>
    decreases entries.len(),
{
    if entries.len() == 0 {
        Seq::empty()
    } else {
        insert_listed(listing_order(entries.drop_last()), entries.last())
    }
}

fn lists_before_exec(a: &ListEntry, b: &ListEntry) -> (r: bool)
    ensures
        r == lists_before(*a, *b),
{
    (a.is_dir && !b.is_dir) || (a.is_dir == b.is_dir && crate::text::str_lt(a.name.as_str(), b.name.as_str()))
}

proof fn lemma_insert_listed_len(sorted: Seq<ListEntry>, x: ListEntry)
    ensures
        insert_listed(sorted, x).len() == sorted.len() + 1,
    decreases sorted.len(),
{
    if sorted.len() > 0 && lists_before(x, sorted.last()) {
        lemma_insert_listed_len(sorted.drop_last(), x);
    }
}

fn insert_entry(sorted: &mut Vec<ListEntry>, x: ListEntry)
    ensures
        final(sorted)@ == insert_listed(old(sorted)@, x),
{
    let mut i: usize = sorted.len();
    let ghost s0 = sorted@;
    assert(s0.take(i as int) =~= s0);
    assert(s0.subrange(i as int, s0.len() as int) =~= Seq::<ListEntry>::empty());
    assert(insert_listed(s0, x) + Seq::<ListEntry>::empty() =~= insert_listed(s0, x));
    while i > 0 && lists_before_exec(&x, &sorted[i - 1])
        invariant
            i <= s0.len(),
            sorted@ == s0,
            insert_listed(s0, x) == insert_listed(s0.take(i as int), x) + s0.subrange(i as int, s0.len() as int),
        decreases i,
    {
        proof {
            let t = s0.take(i as int);
            assert(t.drop_last() =~= s0.take(i - 1));
            assert(t.last() == s0[i - 1]);
            assert(insert_listed(t, x) == insert_listed(s0.take(i - 1), x).push(s0[i - 1]));
            assert(insert_listed(s0.take(i - 1), x) + s0.subrange(i - 1, s0.len() as int) =~= insert_listed(
                s0.take(i - 1),
                x,
            ).push(s0[i - 1]) + s0.subrange(i as int, s0.len() as int));
        }
        i -= 1;
    }
    proof {
        let t = s0.take(i as int);
        if i == 0 {
            assert(insert_listed(t, x) == seq![x]);
        } else {
            assert(t.last() == s0[i - 1]);
            assert(insert_listed(t, x) == t.push(x));
        }
    }
    sorted.insert(i, x);
    proof {
        let t = s0.take(i as int);
        assert(sorted@ =~= t.push(x) + s0.subrange(i as int, s0.len() as int));
        assert(s0.insert(i as int, x) =~= t.push(x) + s0.subrange(i as int, s0.len() as int));
    }
}

/// The entries to list: those whose path the glob matches (all when there
/// is none), in listing order.
pub open spec fn listed(entries: Seq<(Seq<char>, ListEntry)>, glob: Option<Seq<char>>) -> Seq<ListEntry>
    decreases entries.len(),
{
    if entries.len() == 0 {
        Seq::empty()
    } else {
        let r = listed(entries.drop_last(), glob);
        let (path, e) = entries.last();
        let keep = match glob {
            Some(g) => crate::bash::glob_matches(g, path),
            None => true,
        };
        if keep {
            insert_listed(r, e)
        } else {
            r
        }
    }
}

/// Lists walked entries (path, entry): a glob that does not compile is
/// `Err` holding it; otherwise the entries whose path it matches, in
/// listing order (see [`listed`]).
pub fn list_entries(entries: Vec<(String, ListEntry)>, glob: Option<&str>) -> (r: Result<Vec<ListEntry>, String>)
    ensures
        match glob {
            Some(g) => if crate::bash::glob_usable(g@) {
                r matches Ok(v) && v@ == listed(entries@.map_values(|e: (String, ListEntry)| (e.0@, e.1)), Some(g@))
            } else {
                r matches Err(x) && x@ == g@
            },
            None => r matches Ok(v) && v@ == listed(entries@.map_values(|e: (String, ListEntry)| (e.0@, e.1)), None),
        },
{
    match glob {
        Some(g) => {
            if !crate::bash::glob_is_usable(g) {
                return Err(g.to_owned());
            }
        },
        None => {},
    }
    let ghost ev = entries@.map_values(|e: (String, ListEntry)| (e.0@, e.1));
    let ghost gv: Option<Seq<char>> = match glob { Some(g) => Some(g@), None => None };
    let mut out: Vec<ListEntry> = Vec::new();
    let mut rest = entries;
    let mut taken: Vec<(String, ListEntry)> = Vec::new();
    let n = rest.len();
    let mut i: usize = 0;
    let ghost all = rest@;
    while i < n
        invariant
            i <= n == all.len(),
            ev == all.map_values(|e: (String, ListEntry)| (e.0@, e.1)),
            rest@ == all.subrange(i as int, n as int),
            gv == match glob { Some(g) => Some(g@), None => None::<Seq<char>> },
            match glob { Some(g) => crate::bash::glob_usable(g@), None => true },
            out@ == listed(ev.take(i as int), gv),
        decreases n - i,
    {
        let item = rest.remove(0);
        proof {
            assert(item == all[i as int]);
            assert(rest@ =~= all.subrange(i + 1, n as int));
            assert(ev.take(i + 1).drop_last() =~= ev.take(i as int));
            assert(ev.take(i + 1).last() == (item.0@, item.1));
        }
        let keep = match glob {
            Some(g) => crate::bash::glob_is_match(g, item.0.as_str()),
            None => true,
        };
        if keep {
            insert_entry(&mut out, item.1);
        }
        i += 1;
    }
    assert(ev.take(n as int) =~= ev);
    Ok(out)
}

} // verus!
