//! The `web.search` tool's backends and its result-count rule.
use vstd::prelude::*;

use crate::text::str_eq;

verus! {

/// One search result.
#[derive(Debug, Clone, PartialEq, Eq)]
pub struct SearchResult {
    pub title: String,
    pub url: String,
    pub snippet: String,
}

/// A failed search.
#[derive(Debug, Clone, PartialEq, Eq)]
pub enum SearchError {
    NoBackendConfigured,
    Provider { provider: String, message: String },
    InvalidArgs { reason: String },
}

/// Answers search queries.
pub trait SearchBackend {
    /// Whether `r` is an answer the backend gives to `query` when asked for
    /// at most `max_results` results.
    spec fn answers(&self, query: Seq<char>, max_results: usize, r: Result<Vec<SearchResult>, SearchError>) -> bool;

    /// At most `max_results` results for `query`.
    fn search(&self, query: &str, max_results: usize) -> (r: Result<Vec<SearchResult>, SearchError>)
        ensures
            self.answers(query@, max_results, r),
    ;
}

/// A backend that refuses every query.
pub struct RefuseSearchBackend;

impl SearchBackend for RefuseSearchBackend {
    open spec fn answers(&self, query: Seq<char>, max_results: usize, r: Result<Vec<SearchResult>, SearchError>) -> bool {
        r == Err::<Vec<SearchResult>, SearchError>(SearchError::NoBackendConfigured)
    }

    /// Always `NoBackendConfigured`.
    fn search(&self, query: &str, max_results: usize) -> (r: Result<Vec<SearchResult>, SearchError>)
        ensures
            r == Err::<Vec<SearchResult>, SearchError>(SearchError::NoBackendConfigured),
    {
        Err(SearchError::NoBackendConfigured)
    }
}

/// The view of a result.
pub open spec fn result_view(r: SearchResult) -> (Seq<char>, Seq<char>, Seq<char>) {
    (r.title@, r.url@, r.snippet@)
}

/// The views of results.
pub open spec fn results_view(v: Seq<SearchResult>) -> Seq<(Seq<char>, Seq<char>, Seq<char>)> {
    v.map_values(|r: SearchResult| result_view(r))
}

/// The recorded entries as plain values.
pub open spec fn entries_view(e: Seq<(String, Vec<SearchResult>)>) -> Seq<(Seq<char>, Seq<(Seq<char>, Seq<char>, Seq<char>)>)> {
    e.map_values(|x: (String, Vec<SearchResult>)| (x.0@, results_view(x.1@)))
}

/// The results recorded for `query` (the entry listed last wins).
pub open spec fn recorded(e: Seq<(Seq<char>, Seq<(Seq<char>, Seq<char>, Seq<char>)>)>, query: Seq<char>) -> Option<
    Seq<(Seq<char>, Seq<char>, Seq<char>)>,
>
    decreases e.len(),
{
    if e.len() == 0 {
        None
    } else if e.last().0 == query {
        Some(e.last().1)
    } else {
        recorded(e.drop_last(), query)
    }
}

/// A backend that answers from recorded results.
pub struct MapSearchBackend {
    entries: Vec<(String, Vec<SearchResult>)>,
}

impl MapSearchBackend {
    /// The results recorded for `query`, if any.
    pub closed spec fn lookup(&self, query: Seq<char>) -> Option<Seq<(Seq<char>, Seq<char>, Seq<char>)>> {
        recorded(entries_view(self.entries@), query)
    }

    /// A backend answering from `entries` (query, results); a query listed
    /// twice keeps its last results.
    pub fn new(entries: Vec<(String, Vec<SearchResult>)>) -> (r: Self)
        ensures
            forall|q: Seq<char>| #[trigger] r.lookup(q) == recorded(entries_view(entries@), q),
    {
        MapSearchBackend { entries }
    }
}

fn copy_result(r: &SearchResult) -> (c: SearchResult)
    ensures
        result_view(c) == result_view(*r),
{
    SearchResult { title: r.title.as_str().to_owned(), url: r.url.as_str().to_owned(), snippet: r.snippet.as_str().to_owned() }
}

impl SearchBackend for MapSearchBackend {
    open spec fn answers(&self, query: Seq<char>, max_results: usize, r: Result<Vec<SearchResult>, SearchError>) -> bool {
        match self.lookup(query) {
            Some(rs) => r matches Ok(v) && results_view(v@) == rs.take(
                if max_results < rs.len() { max_results as int } else { rs.len() as int },
            ),
            None => r == Err::<Vec<SearchResult>, SearchError>(SearchError::NoBackendConfigured),
        }
    }

    /// The first `max_results` results recorded for `query`; an unknown
    /// query is `NoBackendConfigured`.
    fn search(&self, query: &str, max_results: usize) -> (r: Result<Vec<SearchResult>, SearchError>)
        ensures
            match self.lookup(query@) {
                Some(rs) => r matches Ok(v) && results_view(v@) == rs.take(
                    if max_results < rs.len() { max_results as int } else { rs.len() as int },
                ),
                None => r == Err::<Vec<SearchResult>, SearchError>(SearchError::NoBackendConfigured),
            },
    {
        let ghost ev = entries_view(self.entries@);
        let mut i: usize = self.entries.len();
        assert(ev.take(i as int) =~= ev);
        while i > 0
            invariant
                i <= self.entries@.len(),
                ev == entries_view(self.entries@),
                recorded(ev, query@) == recorded(ev.take(i as int), query@),
            decreases i,
        {
            proof {
                assert(ev.take(i as int).drop_last() =~= ev.take(i - 1));
                assert(ev.take(i as int).last() == ev[i - 1]);
            }
            if str_eq(self.entries[i - 1].0.as_str(), query) {
                let results = &self.entries[i - 1].1;
                let take = if max_results < results.len() { max_results } else { results.len() };
                let mut out: Vec<SearchResult> = Vec::new();
                let mut k: usize = 0;
                while k < take
                    invariant
                        k <= take <= results@.len(),
                        results_view(out@) == results_view(results@).take(k as int),
                    decreases take - k,
                {
                    let ghost before = out@;
                    out.push(copy_result(&results[k]));
                    proof {
                        assert(results_view(out@) =~= results_view(before).push(result_view(results@[k as int])));
                        assert(results_view(results@).take(k + 1) =~= results_view(results@).take(k as int).push(
                            result_view(results@[k as int]),
                        ));
                    }
                    k += 1;
                }
                return Ok(out);
            }
            i -= 1;
        }
        Err(SearchError::NoBackendConfigured)
    }
}

/// The arguments of a search call.
#[derive(Debug, Clone, PartialEq, Eq)]
pub struct WebSearchArgs {
    pub query: String,
    pub max_results: Option<usize>,
}

/// The search tool over a backend.
pub struct WebSearch<B> {
    pub backend: B,
    pub default_max_results: usize,
}

/// Fewest results a call may ask for.
pub const MIN_MAX_RESULTS: usize = 1;

/// Most results a call may ask for.
pub const MAX_MAX_RESULTS: usize = 20;

/// The number of results a call gets: what it asks for (or `default`),
/// clamped to `1..=20`.
pub open spec fn clamped(requested: Option<usize>, default: usize) -> usize {
    let raw = match requested { Some(n) => n, None => default };
    if raw < MIN_MAX_RESULTS { MIN_MAX_RESULTS } else if raw > MAX_MAX_RESULTS { MAX_MAX_RESULTS } else { raw }
}

impl<B: SearchBackend> WebSearch<B> {
    /// The tool over `backend`, asking for 5 results by default.
    pub fn new(backend: B) -> (r: Self)
        ensures
            r.default_max_results == 5,
            r.backend == backend,
    {
        WebSearch { backend, default_max_results: 5 }
    }

    /// The number of results a call with `requested` gets (see [`clamped`]).
    pub fn max_results_for(&self, requested: Option<usize>) -> (r: usize)
        ensures
            r == clamped(requested, self.default_max_results),
    {
        let raw = match requested {
            Some(n) => n,
            None => self.default_max_results,
        };
        if raw < MIN_MAX_RESULTS {
            MIN_MAX_RESULTS
        } else if raw > MAX_MAX_RESULTS {
            MAX_MAX_RESULTS
        } else {
            raw
        }
    }

    /// Runs a search call: asks the backend for the call's query with the
    /// clamped result count, and gives back its answer.
    pub fn call(&self, args: &WebSearchArgs) -> (r: Result<Vec<SearchResult>, SearchError>)
        ensures
            self.backend.answers(args.query@, clamped(args.max_results, self.default_max_results), r),
    {
        let n = self.max_results_for(args.max_results);
        self.backend.search(args.query.as_str(), n)
    }
}


/// A call asks for at least 1 and at most 20 results, and a count already
/// in that range is asked for as it is.
pub proof fn lemma_clamped_in_range(requested: Option<usize>, default: usize)
    ensures
        MIN_MAX_RESULTS <= clamped(requested, default) <= MAX_MAX_RESULTS,
        forall|n: usize| requested == Some(n) && MIN_MAX_RESULTS <= n <= MAX_MAX_RESULTS ==> clamped(requested, default) == n,
{
}

} // verus!
