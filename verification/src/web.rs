//! The `web_search` and `web_fetch` tools: reading a tool call's arguments,
//! and shaping what the provider answered into a tool result.
use vstd::prelude::*;

use crate::conversation::{yaml_view, Content, ContentBlock, YamlValue, YamlView};
use crate::text::{chars_of, dec, push_decimal, push_str, str_eq};
use crate::tools::ToolError;

verus! {

/// Number of results asked for when the call names none.
pub const DEFAULT_RESULT_COUNT: u8 = 5;

/// A search request.
#[derive(Debug, Clone, PartialEq, Eq)]
pub struct SearchQuery {
    pub query: String,
    pub count: u8,
}

/// One search hit.
#[derive(Debug, Clone, PartialEq, Eq)]
pub struct SearchHit {
    pub title: String,
    pub url: String,
    pub snippet: String,
}

/// The hits of a search.
#[derive(Debug, Clone, PartialEq, Eq)]
pub struct SearchResults {
    pub hits: Vec<SearchHit>,
}

/// A failed search.
#[derive(Debug, Clone, PartialEq, Eq)]
pub enum SearchError {
    Request(String),
    Decode(String),
}

/// A fetch request.
#[derive(Debug, Clone, PartialEq, Eq)]
pub struct FetchRequest {
    pub url: String,
}

/// What a fetch got back.
#[derive(Debug, Clone, PartialEq, Eq)]
pub struct FetchResponse {
    pub status: u16,
    pub body: String,
    pub content_type: Option<String>,
}

/// A failed fetch.
#[derive(Debug, Clone, PartialEq, Eq)]
pub enum FetchError {
    Request(String),
    InvalidUrl { url: String, reason: String },
}

/// The message of a search error.
pub open spec fn search_error_text(e: SearchError) -> Seq<char> {
    match e {
        SearchError::Request(m) => "search request failed: "@ + m@,
        SearchError::Decode(m) => "search response was not the expected shape: "@ + m@,
    }
}

impl SearchError {
    /// The error's message.
    pub fn message(&self) -> (r: String)
        ensures
            r@ == search_error_text(*self),
    {
        let mut out = String::new();
        match self {
            SearchError::Request(m) => {
                push_str(&mut out, "search request failed: ");
                push_str(&mut out, m.as_str());
            },
            SearchError::Decode(m) => {
                push_str(&mut out, "search response was not the expected shape: ");
                push_str(&mut out, m.as_str());
            },
        }
        out
    }
}

/// The message of a fetch error.
pub open spec fn fetch_error_text(e: FetchError) -> Seq<char> {
    match e {
        FetchError::Request(m) => "fetch request failed: "@ + m@,
        FetchError::InvalidUrl { url, reason } => "invalid url "@ + crate::assertions::debug_quoted(url@) + ": "@
            + reason@,
    }
}

impl FetchError {
    /// The error's message.
    pub fn message(&self) -> (r: String)
        ensures
            r@ == fetch_error_text(*self),
    {
        let mut out = String::new();
        match self {
            FetchError::Request(m) => {
                push_str(&mut out, "fetch request failed: ");
                push_str(&mut out, m.as_str());
            },
            FetchError::InvalidUrl { url, reason } => {
                push_str(&mut out, "invalid url ");
                let q = crate::assertions::debug_quote(url.as_str());
                push_str(&mut out, q.as_str());
                push_str(&mut out, ": ");
                push_str(&mut out, reason.as_str());
            },
        }
        out
    }
}

/// A successful tool result for the call `id`.
pub fn ok_result(id: &str, text: String) -> (r: ContentBlock)
    ensures
        r matches ContentBlock::ToolResult { tool_use_id, content: Content::Text(t), is_error } && tool_use_id@ == id@
            && t@ == text@ && is_error is None,
{
    ContentBlock::ToolResult { tool_use_id: id.to_owned(), content: Content::Text(text), is_error: None }
}

/// An error tool result for the call `id`.
pub fn error_result(id: &str, text: &str) -> (r: ContentBlock)
    ensures
        r matches ContentBlock::ToolResult { tool_use_id, content: Content::Text(t), is_error } && tool_use_id@ == id@
            && t@ == text@ && is_error == Some(true),
{
    ContentBlock::ToolResult { tool_use_id: id.to_owned(), content: Content::Text(text.to_owned()), is_error: Some(true) }
}

/// One hit as text: title, an em dash, the URL, then the snippet on its own line.
pub open spec fn hit_text(h: SearchHit) -> Seq<char> {
    h.title@ + " \u{2014} "@ + h.url@ + "\n"@ + h.snippet@
}

/// The hits as text, separated by blank lines.
pub open spec fn hits_text(hits: Seq<SearchHit>) -> Seq<char>
    decreases hits.len(),
{
    if hits.len() == 0 {
        Seq::empty()
    } else if hits.len() == 1 {
        hit_text(hits[0])
    } else {
        hits_text(hits.drop_last()) + "\n\n"@ + hit_text(hits.last())
    }
}

/// The hits of a search as text: `No results.` when there are none.
pub fn render_hits(results: &SearchResults) -> (r: String)
    ensures
        r@ == if results.hits@.len() == 0 { "No results."@ } else { hits_text(results.hits@) },
{
    if results.hits.len() == 0 {
        return "No results.".to_owned();
    }
    let mut out = String::new();
    let mut i: usize = 0;
    while i < results.hits.len()
        invariant
            i <= results.hits@.len(),
            out@ == hits_text(results.hits@.take(i as int)),
        decreases results.hits.len() - i,
    {
        proof {
            assert(results.hits@.take(i + 1).drop_last() =~= results.hits@.take(i as int));
            assert(results.hits@.take(i + 1).last() == results.hits@[i as int]);
        }
        if i > 0 {
            push_str(&mut out, "\n\n");
        }
        let h = &results.hits[i];
        push_str(&mut out, h.title.as_str());
        push_str(&mut out, " \u{2014} ");
        push_str(&mut out, h.url.as_str());
        push_str(&mut out, "\n");
        push_str(&mut out, h.snippet.as_str());
        proof {
            if i == 0 {
                assert(results.hits@.take(1).len() == 1);
                assert(out@ =~= hits_text(results.hits@.take(1)));
            } else {
                assert(out@ =~= hits_text(results.hits@.take(i + 1)));
            }
        }
        i += 1;
    }
    assert(results.hits@.take(results.hits@.len() as int) =~= results.hits@);
    out
}

/// A fetch response as text: the status line (with the content type when
/// known), a blank line, then the body.
pub open spec fn response_text(r: FetchResponse) -> Seq<char> {
    "HTTP "@ + dec(r.status as nat) + match r.content_type {
        Some(t) => " ("@ + t@ + ")"@,
        None => Seq::empty(),
    } + "\n\n"@ + r.body@
}

/// A fetch response as text (see [`response_text`]).
pub fn render_response(response: &FetchResponse) -> (r: String)
    ensures
        r@ == response_text(*response),
{
    let mut out = String::new();
    push_str(&mut out, "HTTP ");
    push_decimal(&mut out, response.status as u64);
    match &response.content_type {
        Some(t) => {
            push_str(&mut out, " (");
            push_str(&mut out, t.as_str());
            push_str(&mut out, ")");
        },
        None => {},
    }
    push_str(&mut out, "\n\n");
    push_str(&mut out, response.body.as_str());
    out
}

/// The value under the string key `key` of a YAML mapping (the first such
/// entry); nothing for any other value.
pub open spec fn yaml_get(v: YamlView, key: Seq<char>) -> Option<YamlView> {
    match v {
        YamlView::Mapping(entries) => crate::conversation::lookup_yaml(entries, YamlView::Str(key)),
        _ => None,
    }
}

fn get_field<'a>(input: &'a YamlValue, key: &str) -> (r: Option<&'a YamlValue>)
    ensures
        match yaml_get(yaml_view(*input), key@) {
            Some(v) => r matches Some(x) && yaml_view(*x) == v,
            None => r is None,
        },
{
    match input {
        YamlValue::Mapping(entries) => {
            let k = YamlValue::Str(key.to_owned());
            crate::conversation::find_entry(entries, &k)
        },
        _ => None,
    }
}

/// The value of a string of ASCII digits, when it has at least one.
pub open spec fn unsigned_text(t: Seq<char>) -> Option<nat> {
    if t.len() > 0 && forall|i: int| 0 <= i < t.len() ==> crate::workflow::is_digit(#[trigger] t[i]) {
        Some(crate::workflow::digits_value(t))
    } else {
        None
    }
}

/// The count a search call asks for: its `count` when that is a number in
/// `0..=255`, else the default.
pub open spec fn requested_count(input: YamlView) -> nat {
    match yaml_get(input, "count"@) {
        Some(YamlView::Number(t)) => match unsigned_text(t) {
            Some(n) => if n <= 255 { n } else { DEFAULT_RESULT_COUNT as nat },
            None => DEFAULT_RESULT_COUNT as nat,
        },
        _ => DEFAULT_RESULT_COUNT as nat,
    }
}

fn small_number(t: &str) -> (r: Option<u8>)
    ensures
        match unsigned_text(t@) {
            Some(n) => if n <= 255 { r == Some(n as u8) } else { r is None },
            None => r is None,
        },
{
    let v = chars_of(t);
    if v.len() == 0 {
        return None;
    }
    let mut i: usize = 0;
    let mut value: u64 = 0;
    let mut big = false;
    while i < v.len()
        invariant
            0 < v@.len(),
            v@ == t@,
            i <= v@.len(),
            forall|j: int| 0 <= j < i ==> crate::workflow::is_digit(#[trigger] v@[j]),
            !big ==> value == crate::workflow::digits_value(v@.take(i as int)) && value <= 255,
            big ==> crate::workflow::digits_value(v@.take(i as int)) > 255,
        decreases v.len() - i,
    {
        if !('0' <= v[i] && v[i] <= '9') {
            assert(!(forall|j: int| 0 <= j < v@.len() ==> crate::workflow::is_digit(#[trigger] v@[j]))) by {
                assert(!crate::workflow::is_digit(v@[i as int]));
            }
            return None;
        }
        proof {
            assert(v@.take(i + 1).drop_last() =~= v@.take(i as int));
            assert(v@.take(i + 1).last() == v@[i as int]);
            if big {
                assert(crate::workflow::digits_value(v@.take(i + 1)) >= crate::workflow::digits_value(v@.take(i as int)) * 10) by (nonlinear_arith)
                    requires
                        crate::workflow::digits_value(v@.take(i + 1)) == crate::workflow::digits_value(v@.take(i as int)) * 10
                            + ((v@[i as int] as u32) - ('0' as u32)) as nat,
                ;
            }
        }
        if !big {
            let next = value * 10 + (v[i] as u32 - '0' as u32) as u64;
            if next > 255 {
                big = true;
            } else {
                value = next;
            }
        }
        i += 1;
    }
    assert(v@.take(v@.len() as int) =~= v@);
    if big {
        None
    } else {
        Some(value as u8)
    }
}

/// What a search call amounts to: the request to send, or the error
/// result to answer with at once.
pub enum SearchPlan {
    Send { id: String, query: SearchQuery },
    Answer(ContentBlock),
}

/// Reads a `web_search` call: its `query` must be a string (else the
/// answer is an error result); its `count` defaults to
/// [`DEFAULT_RESULT_COUNT`]. A block other than a tool call is `NotAToolUse`.
pub fn plan_search(call: &ContentBlock) -> (r: Result<SearchPlan, ToolError>)
    ensures
        match *call {
            ContentBlock::ToolUse { id, input, .. } => match yaml_get(yaml_view(input), "query"@) {
                Some(YamlView::Str(q)) => r matches Ok(SearchPlan::Send { id: i, query }) && i@ == id@ && query.query@ == q
                    && query.count as nat == requested_count(yaml_view(input)),
                _ => r matches Ok(SearchPlan::Answer(ContentBlock::ToolResult { tool_use_id, content: Content::Text(t), is_error }))
                    && tool_use_id@ == id@ && t@ == "web_search requires a string `query`"@ && is_error == Some(true),
            },
            _ => r == Err::<SearchPlan, ToolError>(ToolError::NotAToolUse),
        },
{
    match call {
        ContentBlock::ToolUse { id, input, .. } => {
            let query = match get_field(input, "query") {
                Some(YamlValue::Str(q)) => q.clone(),
                _ => {
                    return Ok(SearchPlan::Answer(error_result(id.as_str(), "web_search requires a string `query`")));
                },
            };
            let count = match get_field(input, "count") {
                Some(YamlValue::Number(t)) => match small_number(t.as_str()) {
                    Some(n) => n,
                    None => DEFAULT_RESULT_COUNT,
                },
                _ => DEFAULT_RESULT_COUNT,
            };
            Ok(SearchPlan::Send { id: id.clone(), query: SearchQuery { query, count } })
        },
        _ => Err(ToolError::NotAToolUse),
    }
}

/// The tool result for what the search provider answered the call `id`:
/// the rendered hits, or an error result with the error's message.
pub fn search_result(id: &str, outcome: Result<SearchResults, SearchError>) -> (r: ContentBlock)
    ensures
        match outcome {
            Ok(results) => r matches ContentBlock::ToolResult { tool_use_id, content: Content::Text(t), is_error }
                && tool_use_id@ == id@ && is_error is None
                && t@ == if results.hits@.len() == 0 { "No results."@ } else { hits_text(results.hits@) },
            Err(e) => r matches ContentBlock::ToolResult { tool_use_id, content: Content::Text(t), is_error }
                && tool_use_id@ == id@ && is_error == Some(true) && t@ == search_error_text(e),
        },
{
    match outcome {
        Ok(results) => ok_result(id, render_hits(&results)),
        Err(e) => {
            let m = e.message();
            error_result(id, m.as_str())
        },
    }
}

/// What a fetch call amounts to: the request to send, or the error result
/// to answer with at once.
pub enum FetchPlan {
    Send { id: String, request: FetchRequest },
    Answer(ContentBlock),
}

/// Reads a `web_fetch` call: its `url` must be a string (else the answer
/// is an error result). A block other than a tool call is `NotAToolUse`.
pub fn plan_fetch(call: &ContentBlock) -> (r: Result<FetchPlan, ToolError>)
    ensures
        match *call {
            ContentBlock::ToolUse { id, input, .. } => match yaml_get(yaml_view(input), "url"@) {
                Some(YamlView::Str(u)) => r matches Ok(FetchPlan::Send { id: i, request }) && i@ == id@ && request.url@ == u,
                _ => r matches Ok(FetchPlan::Answer(ContentBlock::ToolResult { tool_use_id, content: Content::Text(t), is_error }))
                    && tool_use_id@ == id@ && t@ == "web_fetch requires a string `url`"@ && is_error == Some(true),
            },
            _ => r == Err::<FetchPlan, ToolError>(ToolError::NotAToolUse),
        },
{
    match call {
        ContentBlock::ToolUse { id, input, .. } => {
            match get_field(input, "url") {
                Some(YamlValue::Str(u)) => Ok(FetchPlan::Send { id: id.clone(), request: FetchRequest { url: u.clone() } }),
                _ => Ok(FetchPlan::Answer(error_result(id.as_str(), "web_fetch requires a string `url`"))),
            }
        },
        _ => Err(ToolError::NotAToolUse),
    }
}

/// The tool result for what the fetcher answered the call `id`: a 2xx
/// response renders as a result, any other as an error result, and a
/// failed fetch as an error result with the error's message.
pub fn fetch_result(id: &str, outcome: Result<FetchResponse, FetchError>) -> (r: ContentBlock)
    ensures
        match outcome {
            Ok(resp) => r matches ContentBlock::ToolResult { tool_use_id, content: Content::Text(t), is_error }
                && tool_use_id@ == id@ && t@ == response_text(resp)
                && is_error == if 200 <= resp.status < 300 { None } else { Some(true) },
            Err(e) => r matches ContentBlock::ToolResult { tool_use_id, content: Content::Text(t), is_error }
                && tool_use_id@ == id@ && is_error == Some(true) && t@ == fetch_error_text(e),
        },
{
    match outcome {
        Ok(resp) => {
            let text = render_response(&resp);
            if 200 <= resp.status && resp.status < 300 {
                ok_result(id, text)
            } else {
                error_result(id, text.as_str())
            }
        },
        Err(e) => {
            let m = e.message();
            error_result(id, m.as_str())
        },
    }
}

} // verus!
