use ailly::template::Context;
use ailly::web_config::{interpolate_env, WebSearchTable, WebToolsConfig, WebsearchBackendBuilder, WebsearchConfigError};

fn table_of(toml_text: &str) -> Option<WebSearchTable> {
    let value: toml::Value = toml::from_str(toml_text).expect("parse toml");
    let t = value.get("tools").and_then(|t| t.get("web_search")).and_then(|t| t.as_table())?;
    let field = |k: &str| t.get(k).and_then(|v| v.as_str()).map(String::from);
    Some(WebSearchTable {
        provider: field("provider"),
        api_key: field("api_key"),
        cx: field("cx"),
        endpoint: field("endpoint"),
    })
}

fn from_toml(toml_text: &str, env: &Context) -> Result<WebToolsConfig, WebsearchConfigError> {
    let table = table_of(toml_text);
    WebToolsConfig::from_table(table.as_ref(), env)
}

#[test]
fn builder_requires_provider() {
    let err = WebsearchBackendBuilder::new().build().expect_err("must require provider");
    assert!(matches!(err, WebsearchConfigError::MissingProvider));
}

#[test]
fn builder_brave_requires_api_key() {
    let err = WebsearchBackendBuilder::new().provider("brave").build().expect_err("brave needs api_key");
    match err {
        WebsearchConfigError::MissingApiKey { provider } => assert_eq!(provider, "brave"),
        other => panic!("expected MissingApiKey, got {other:?}"),
    }
}

#[test]
fn builder_google_requires_api_key_and_cx() {
    let err = WebsearchBackendBuilder::new().provider("google").build().expect_err("google needs api_key");
    assert!(matches!(err, WebsearchConfigError::MissingApiKey { .. }));
    let err = WebsearchBackendBuilder::new()
        .provider("google")
        .api_key("k")
        .build()
        .expect_err("google needs cx");
    assert!(matches!(err, WebsearchConfigError::MissingCx { .. }));
    WebsearchBackendBuilder::new()
        .provider("google")
        .api_key("k")
        .cx("c")
        .build()
        .expect("google with api_key + cx builds");
}

#[test]
fn builder_searxng_requires_endpoint() {
    let err = WebsearchBackendBuilder::new().provider("searxng").build().expect_err("searxng needs endpoint");
    match err {
        WebsearchConfigError::MissingEndpoint { provider } => assert_eq!(provider, "searxng"),
        other => panic!("expected MissingEndpoint, got {other:?}"),
    }
    WebsearchBackendBuilder::new()
        .provider("searxng")
        .endpoint("https://searx.example/")
        .build()
        .expect("searxng with endpoint builds");
}

#[test]
fn builder_duckduckgo_builds_with_no_credentials() {
    WebsearchBackendBuilder::new().provider("duckduckgo").build().expect("duckduckgo builds");
}

#[test]
fn builder_unknown_provider_returns_typed_error() {
    let err = WebsearchBackendBuilder::new()
        .provider("not-a-provider")
        .build()
        .expect_err("unknown provider");
    match err {
        WebsearchConfigError::UnknownProvider { provider } => assert_eq!(provider, "not-a-provider"),
        other => panic!("expected UnknownProvider, got {other:?}"),
    }
}

#[test]
fn config_table_with_env_interpolation_resolves_to_builder() {
    let mut env = Context::new();
    env.insert("AILLY_TEST_WEB_BUILDER_API_KEY", "resolved-key");
    let toml_text = r#"
[tools.web_search]
provider = "brave"
api_key = "${AILLY_TEST_WEB_BUILDER_API_KEY}"
"#;
    let cfg = from_toml(toml_text, &env).expect("parse interpolated config");
    let builder = cfg.web_search.expect("web_search builder present");
    assert_eq!(builder.api_key.as_deref(), Some("resolved-key"));
    assert_eq!(builder.provider.as_deref(), Some("brave"));
}

#[test]
fn config_table_with_undefined_env_var_returns_typed_error() {
    let toml_text = r#"
[tools.web_search]
provider = "brave"
api_key = "${AILLY_TEST_WEB_UNDEFINED_DO_NOT_SET_ME}"
"#;
    let err = from_toml(toml_text, &Context::new()).expect_err("undefined env var fails");
    match err {
        WebsearchConfigError::UndefinedEnvVar { name } => assert_eq!(name, "AILLY_TEST_WEB_UNDEFINED_DO_NOT_SET_ME"),
        other => panic!("expected UndefinedEnvVar, got {other:?}"),
    }
}

#[test]
fn config_table_with_unknown_provider_returns_typed_error() {
    let toml_text = r#"
[tools.web_search]
provider = "totally-fake"
"#;
    let cfg = from_toml(toml_text, &Context::new()).expect("parse config table");
    let err = cfg.web_search.expect("builder present").build().expect_err("unknown provider");
    assert!(matches!(err, WebsearchConfigError::UnknownProvider { .. }));
}

#[test]
fn config_table_absent_from_toml_yields_none_web_search() {
    let toml_text = r#"
[other]
key = "value"
"#;
    let cfg = from_toml(toml_text, &Context::new()).expect("parse without table");
    assert!(cfg.web_search.is_none());
}

#[test]
fn config_table_missing_provider_field_returns_typed_error() {
    let toml_text = r#"
[tools.web_search]
api_key = "k"
"#;
    let err = from_toml(toml_text, &Context::new()).expect_err("missing provider");
    assert!(matches!(err, WebsearchConfigError::MissingProvider));
}

#[test]
fn interpolate_passthrough_for_literal_strings() {
    let env = Context::new();
    assert_eq!(interpolate_env("plain", &env).unwrap(), "plain");
    assert_eq!(interpolate_env("a/b/c", &env).unwrap(), "a/b/c");
    assert_eq!(interpolate_env("", &env).unwrap(), "");
}

#[test]
fn interpolate_replaces_each_reference_once_without_rescanning() {
    let mut env = Context::new();
    env.insert("A", "x${B}");
    env.insert("B", "y");
    assert_eq!(interpolate_env("<${A}|${B}>", &env).unwrap(), "<x${B}|y>");
}
