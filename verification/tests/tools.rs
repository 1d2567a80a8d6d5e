use ailly::clarify::{DefaultOnlyKnowledgeBase, KnowledgeError, MapKnowledgeBase, RefuseKnowledgeBase};
use ailly::conversation::{Content, ContentBlock, YamlValue};
use ailly::tools::{NoopToolExecutor, ToolError, ToolExecutor};

fn tool_use(id: &str, name: &str) -> ContentBlock {
    ContentBlock::ToolUse {
        id: String::from(id),
        name: String::from(name),
        input: YamlValue::Null,
    }
}

#[test]
fn execute_returns_scripted_result_echoing_call_id() {
    let mut executor =
        NoopToolExecutor::from_scripts(vec![(String::from("lookup_policy"), vec![String::from("status: in_force")])]);
    let result = executor.execute(&tool_use("toolu_001", "lookup_policy")).expect("scripted result is served");
    match result {
        ContentBlock::ToolResult { tool_use_id, content: Content::Text(text), is_error } => {
            assert_eq!(tool_use_id, "toolu_001");
            assert_eq!(text, "status: in_force");
            assert_eq!(is_error, None);
        }
        other => panic!("expected a tool result, got {other:?}"),
    }
}

#[test]
fn execute_errors_when_script_exhausted() {
    let mut executor =
        NoopToolExecutor::from_scripts(vec![(String::from("lookup_policy"), vec![String::from("status: in_force")])]);
    executor.execute(&tool_use("toolu_001", "lookup_policy")).expect("first call is served");
    let err = executor.execute(&tool_use("toolu_002", "lookup_policy")).expect_err("second call exhausts the script");
    assert!(matches!(err, ToolError::NoopExhausted { ref name, .. } if name == "lookup_policy"));
}

#[test]
fn execute_errors_on_non_tool_use_block() {
    let mut executor = NoopToolExecutor::new();
    let err = executor
        .execute(&ContentBlock::Text { text: String::from("not a tool call") })
        .expect_err("a non-tool_use block is rejected");
    assert!(matches!(err, ToolError::NotAToolUse));
}

#[test]
fn execute_serves_scripted_replies_in_order_per_tool() {
    let mut executor = NoopToolExecutor::from_scripts(vec![
        (String::from("a"), vec![String::from("a1"), String::from("a2")]),
        (String::from("b"), vec![String::from("b1")]),
    ]);
    let text = |r: Result<ContentBlock, ToolError>| match r {
        Ok(ContentBlock::ToolResult { content: Content::Text(t), .. }) => t,
        other => panic!("unexpected {other:?}"),
    };
    assert_eq!(text(executor.execute(&tool_use("1", "a"))), "a1");
    assert_eq!(text(executor.execute(&tool_use("2", "b"))), "b1");
    assert_eq!(text(executor.execute(&tool_use("3", "a"))), "a2");
    assert!(matches!(
        executor.execute(&tool_use("4", "a")),
        Err(ToolError::NoopExhausted { call_index: 0, .. })
    ));
    assert!(matches!(executor.execute(&tool_use("5", "unknown")), Err(ToolError::NoopExhausted { .. })));
}

#[test]
fn knowledge_base_is_dyn_safe() {
    let result = RefuseKnowledgeBase.ask("q", None);
    assert!(matches!(result, Err(KnowledgeError::NoBackendConfigured)));
}

#[test]
fn refuse_knowledge_base_errors_without_default() {
    assert!(matches!(RefuseKnowledgeBase.ask("anything", None), Err(KnowledgeError::NoBackendConfigured)));
}

#[test]
fn refuse_knowledge_base_errors_with_default() {
    assert!(matches!(RefuseKnowledgeBase.ask("anything", Some("foo")), Err(KnowledgeError::NoBackendConfigured)));
}

#[test]
fn default_only_returns_default_when_supplied() {
    assert_eq!(DefaultOnlyKnowledgeBase.ask("q", Some("dflt")).unwrap(), "dflt");
}

#[test]
fn default_only_errors_with_no_answer_when_default_absent() {
    match DefaultOnlyKnowledgeBase.ask("q", None) {
        Err(KnowledgeError::NoAnswer { question }) => assert_eq!(question, "q"),
        other => panic!("expected NoAnswer carrying question, got {other:?}"),
    }
}

#[test]
fn map_knowledge_base_returns_recorded_answer_on_hit() {
    let kb = MapKnowledgeBase::new(vec![(String::from("q1"), String::from("a1"))]);
    assert_eq!(kb.ask("q1", None).unwrap(), "a1");
}

#[test]
fn map_knowledge_base_errors_with_no_answer_on_miss() {
    let kb = MapKnowledgeBase::new(vec![(String::from("q1"), String::from("a1"))]);
    match kb.ask("q2", None) {
        Err(KnowledgeError::NoAnswer { question }) => assert_eq!(question, "q2"),
        other => panic!("expected NoAnswer carrying question, got {other:?}"),
    }
}

#[test]
fn map_knowledge_base_keeps_the_last_answer_of_a_question() {
    let kb = MapKnowledgeBase::new(vec![
        (String::from("q"), String::from("first")),
        (String::from("q"), String::from("second")),
    ]);
    assert_eq!(kb.ask("q", Some("d")).unwrap(), "second");
}
