use std::sync::Arc;

use ailly::web_fetch::{WebFetchClassifier, WebSearchClassifier};
use ailly::permissions::Classification;
use ailly::web_search::{
    MapSearchBackend, RefuseSearchBackend, SearchBackend, SearchError, SearchResult, WebSearch, WebSearchArgs,
    MAX_MAX_RESULTS,
};

fn fixture() -> Vec<SearchResult> {
    vec![
        SearchResult {
            title: "first".to_string(),
            url: "https://example.test/first".to_string(),
            snippet: "primary".to_string(),
        },
        SearchResult {
            title: "second".to_string(),
            url: "https://example.test/second".to_string(),
            snippet: "secondary".to_string(),
        },
    ]
}

#[test]
fn search_backend_is_dyn_safe() {
    let _: Arc<dyn SearchBackend> = Arc::new(RefuseSearchBackend);
}

#[test]
fn refuse_search_backend_errors_with_no_backend_configured() {
    let err = RefuseSearchBackend.search("anything", 5).expect_err("RefuseSearchBackend always errors");
    assert!(matches!(err, SearchError::NoBackendConfigured));
}

#[test]
fn map_search_backend_returns_recorded_results_on_hit() {
    let recorded = fixture();
    let backend = MapSearchBackend::new(vec![(String::from("hit"), recorded.clone())]);
    let results = backend.search("hit", 5).expect("hit returns results");
    assert_eq!(results, recorded);
}

#[test]
fn map_search_backend_errors_with_no_backend_configured_on_miss() {
    let backend = MapSearchBackend::new(vec![(String::from("hit"), fixture())]);
    let err = backend.search("miss", 5).expect_err("miss errors");
    assert!(matches!(err, SearchError::NoBackendConfigured));
}

#[test]
fn map_search_backend_truncates_to_max_results_and_keeps_the_last_entry_of_a_query() {
    let backend = MapSearchBackend::new(vec![
        (String::from("q"), vec![fixture()[1].clone()]),
        (String::from("q"), fixture()),
    ]);
    assert_eq!(backend.search("q", 1).unwrap(), vec![fixture()[0].clone()]);
    assert_eq!(backend.search("q", 0).unwrap(), vec![]);
}

fn call_count(requested: Option<usize>) -> usize {
    let tool = WebSearch::new(MapSearchBackend::new(vec![(String::from("q"), vec![fixture()[0].clone(); 30])]));
    let args = WebSearchArgs {
        query: "q".to_string(),
        max_results: requested,
    };
    assert_eq!(tool.max_results_for(requested), tool.call(&args).unwrap().len());
    tool.call(&args).unwrap().len()
}

#[test]
fn web_search_tool_clamps_max_results_to_upper_bound() {
    assert_eq!(call_count(Some(9999)), MAX_MAX_RESULTS);
}

#[test]
fn web_search_tool_uses_default_max_results_when_arg_absent() {
    assert_eq!(call_count(None), 5);
}

#[test]
fn web_search_tool_per_call_max_results_overrides_default() {
    assert_eq!(call_count(Some(3)), 3);
}

#[test]
fn web_search_tool_raises_zero_to_the_lower_bound() {
    assert_eq!(call_count(Some(0)), 1);
}

#[test]
fn web_search_classifier_returns_safe_for_well_formed_args() {
    let args: serde_json::Value = serde_json::from_str(r#"{"query": "ddd", "max_results": 3}"#).unwrap();
    assert_eq!(WebSearchClassifier.classify(&args), Classification::Safe);
}

#[test]
fn web_search_classifier_returns_safe_for_null_args() {
    assert_eq!(WebSearchClassifier.classify(&serde_json::Value::Null), Classification::Safe);
}

#[test]
fn web_fetch_classifier_returns_safe_for_well_formed_args() {
    let args: serde_json::Value = serde_json::from_str(r#"{"url": "https://example.test/"}"#).unwrap();
    assert_eq!(WebFetchClassifier.classify(&args), Classification::Safe);
}

#[test]
fn web_fetch_classifier_returns_safe_for_null_args() {
    assert_eq!(WebFetchClassifier.classify(&serde_json::Value::Null), Classification::Safe);
}
