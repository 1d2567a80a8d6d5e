use ailly::tool_definitions::{
    bash_definition, clarify_definition, fs_absent_definition, fs_edit_definition, fs_grep_definition,
    fs_list_definition, fs_read_definition, web_fetch_definition, web_search_definition, ToolDefinition,
};

fn required(d: &ToolDefinition) -> Vec<String> {
    let schema: serde_json::Value = serde_json::from_str(&d.parameters).expect("parameters are JSON");
    assert_eq!(schema["type"], "object");
    schema["required"]
        .as_array()
        .expect("required is an array")
        .iter()
        .map(|v| v.as_str().expect("required names are strings").to_string())
        .collect()
}

#[test]
fn clarify_tool_name_is_user_clarify() {
    assert_eq!(clarify_definition().name, "user-clarify");
}

#[test]
fn web_search_tool_name_is_web_search() {
    assert_eq!(web_search_definition().name, "web.search");
}

#[test]
fn definitions_carry_their_tool_names() {
    assert_eq!(fs_read_definition().name, "fs-read");
    assert_eq!(fs_edit_definition().name, "fs-edit");
    assert_eq!(fs_list_definition().name, "fs-list");
    assert_eq!(fs_absent_definition().name, "fs.absent");
    assert_eq!(fs_grep_definition().name, "fs.grep");
    assert_eq!(bash_definition().name, "bash");
    assert_eq!(web_fetch_definition().name, "web.fetch");
}

#[test]
fn schemas_require_the_arguments_the_tools_read() {
    assert_eq!(required(&fs_read_definition()), vec!["path"]);
    assert_eq!(required(&fs_edit_definition()), vec!["path", "range", "replacement"]);
    assert_eq!(required(&fs_list_definition()), vec!["path"]);
    assert_eq!(required(&fs_absent_definition()), vec!["path", "needle"]);
    assert_eq!(required(&fs_grep_definition()), vec!["path", "pattern"]);
    assert_eq!(required(&bash_definition()), vec!["command"]);
    assert_eq!(required(&web_search_definition()), vec!["query"]);
    assert_eq!(required(&web_fetch_definition()), vec!["url"]);
    assert_eq!(required(&clarify_definition()), vec!["question"]);
}

#[test]
fn web_search_schema_bounds_max_results() {
    let schema: serde_json::Value = serde_json::from_str(&web_search_definition().parameters).unwrap();
    assert_eq!(schema["properties"]["max_results"]["minimum"], 1);
    assert_eq!(schema["properties"]["max_results"]["maximum"], 20);
}

#[test]
fn fs_read_description_mentions_the_inclusive_span() {
    assert!(fs_read_definition().description.contains("1-indexed inclusive"));
}
