use ailly::conversation::{Content, ContentBlock, YamlValue};
use ailly::tools::ToolError;
use ailly::web::{
    fetch_result, plan_fetch, plan_search, search_result, FetchError, FetchPlan, FetchResponse, SearchError, SearchHit,
    SearchPlan, SearchResults,
};

fn input(entries: Vec<(&str, YamlValue)>) -> YamlValue {
    YamlValue::Mapping(entries.into_iter().map(|(k, v)| (YamlValue::Str(String::from(k)), v)).collect())
}

fn tool_use(id: &str, name: &str, input: YamlValue) -> ContentBlock {
    ContentBlock::ToolUse {
        id: String::from(id),
        name: String::from(name),
        input,
    }
}

fn tool_result_text(block: &ContentBlock, expected_id: &str, expected_is_error: Option<bool>) -> String {
    match block {
        ContentBlock::ToolResult { tool_use_id, content, is_error } => {
            assert_eq!(tool_use_id, expected_id);
            assert_eq!(*is_error, expected_is_error);
            match content {
                Content::Text(text) => text.clone(),
                Content::Blocks(_) => panic!("expected text content, got blocks"),
            }
        }
        other => panic!("expected a ToolResult block, got {other:?}"),
    }
}

fn hits() -> SearchResults {
    SearchResults {
        hits: vec![
            SearchHit {
                title: String::from("Rust"),
                url: String::from("https://www.rust-lang.org"),
                snippet: String::from("A language empowering everyone."),
            },
            SearchHit {
                title: String::from("The Rust Book"),
                url: String::from("https://doc.rust-lang.org/book/"),
                snippet: String::from("The official guide."),
            },
        ],
    }
}

#[test]
fn web_search_shapes_hits_into_tool_result() {
    let call = tool_use("toolu_search_1", "web_search", input(vec![("query", YamlValue::Str(String::from("rust lang")))]));
    let (id, query) = match plan_search(&call).unwrap() {
        SearchPlan::Send { id, query } => (id, query),
        SearchPlan::Answer(b) => panic!("expected a request, got {b:?}"),
    };
    assert_eq!(query.query, "rust lang");
    assert_eq!(query.count, 5);
    let text = tool_result_text(&search_result(&id, Ok(hits())), "toolu_search_1", None);
    assert_eq!(
        text,
        "Rust — https://www.rust-lang.org\nA language empowering everyone.\n\nThe Rust Book — https://doc.rust-lang.org/book/\nThe official guide."
    );
}

#[test]
fn web_search_missing_query_is_error_result() {
    let call = tool_use("toolu_search_2", "web_search", input(vec![("count", YamlValue::Number(String::from("3")))]));
    match plan_search(&call).unwrap() {
        SearchPlan::Answer(block) => {
            tool_result_text(&block, "toolu_search_2", Some(true));
        }
        SearchPlan::Send { .. } => panic!("the provider must not be called when `query` is missing"),
    }
}

#[test]
fn web_search_provider_error_is_error_result() {
    let block = search_result("toolu_search_3", Err(SearchError::Request(String::from("brave 503"))));
    let text = tool_result_text(&block, "toolu_search_3", Some(true));
    assert!(text.contains("503"), "the provider error message must ride through: {text}");
}

#[test]
fn web_search_count_argument_and_empty_results() {
    let call = tool_use(
        "s",
        "web_search",
        input(vec![("query", YamlValue::Str(String::from("q"))), ("count", YamlValue::Number(String::from("9")))]),
    );
    match plan_search(&call).unwrap() {
        SearchPlan::Send { query, .. } => assert_eq!(query.count, 9),
        SearchPlan::Answer(b) => panic!("expected a request, got {b:?}"),
    }
    let empty = search_result("s", Ok(SearchResults { hits: Vec::new() }));
    assert_eq!(tool_result_text(&empty, "s", None), "No results.");
    assert!(matches!(plan_search(&ContentBlock::Text { text: String::new() }), Err(ToolError::NotAToolUse)));
}

#[test]
fn web_fetch_shapes_body_into_tool_result() {
    let call = tool_use("toolu_fetch_1", "web_fetch", input(vec![("url", YamlValue::Str(String::from("https://example.com/")))]));
    let (id, request) = match plan_fetch(&call).unwrap() {
        FetchPlan::Send { id, request } => (id, request),
        FetchPlan::Answer(b) => panic!("expected a request, got {b:?}"),
    };
    assert_eq!(request.url, "https://example.com/");
    let response = FetchResponse {
        status: 200,
        body: String::from("<page>hello</page>"),
        content_type: Some(String::from("text/html")),
    };
    let text = tool_result_text(&fetch_result(&id, Ok(response)), "toolu_fetch_1", None);
    assert_eq!(text, "HTTP 200 (text/html)\n\n<page>hello</page>");
}

#[test]
fn web_fetch_non_2xx_is_error_result() {
    let response = FetchResponse {
        status: 404,
        body: String::from("Not Found"),
        content_type: None,
    };
    let text = tool_result_text(&fetch_result("toolu_fetch_2", Ok(response)), "toolu_fetch_2", Some(true));
    assert_eq!(text, "HTTP 404\n\nNot Found");
}

#[test]
fn web_fetch_missing_url_is_error_result() {
    let call = tool_use("toolu_fetch_3", "web_fetch", input(vec![("count", YamlValue::Number(String::from("3")))]));
    match plan_fetch(&call).unwrap() {
        FetchPlan::Answer(block) => {
            tool_result_text(&block, "toolu_fetch_3", Some(true));
        }
        FetchPlan::Send { .. } => panic!("the fetcher must not be called when `url` is missing"),
    }
}

#[test]
fn web_fetch_transport_error_message_rides_through() {
    let block = fetch_result("f", Err(FetchError::Request(String::from("connection refused"))));
    let text = tool_result_text(&block, "f", Some(true));
    assert!(text.contains("connection refused"), "{text}");
    let invalid = FetchError::InvalidUrl { url: String::from("nope"), reason: String::from("relative URL") };
    assert!(invalid.message().contains("nope"));
}
