use ailly::clarify::{ClarifyError, DefaultOnlyKnowledgeBase, KnowledgeError, MapKnowledgeBase, RefuseKnowledgeBase};

#[test]
fn refuse_backend_refuses_every_question() {
    assert_eq!(RefuseKnowledgeBase.ask("q", Some("d")), Err(KnowledgeError::NoBackendConfigured));
}

#[test]
fn default_only_backend_answers_with_the_default() {
    assert_eq!(DefaultOnlyKnowledgeBase.ask("q", Some("yes")), Ok("yes".to_string()));
    assert_eq!(
        DefaultOnlyKnowledgeBase.ask("q", None),
        Err(KnowledgeError::NoAnswer { question: "q".to_string() })
    );
}

#[test]
fn map_backend_keeps_the_last_answer_for_a_repeated_question() {
    let kb = MapKnowledgeBase::new(vec![
        ("colour?".to_string(), "red".to_string()),
        ("size?".to_string(), "large".to_string()),
        ("colour?".to_string(), "blue".to_string()),
    ]);
    assert_eq!(kb.ask("colour?", None), Ok("blue".to_string()));
    assert_eq!(kb.ask("size?", Some("small")), Ok("large".to_string()));
    assert_eq!(kb.ask("shape?", Some("round")), Err(KnowledgeError::NoAnswer { question: "shape?".to_string() }));
}

#[test]
fn knowledge_errors_render_their_messages() {
    assert_eq!(KnowledgeError::NoBackendConfigured.message(), "no knowledge backend configured");
    assert_eq!(
        KnowledgeError::NoAnswer { question: "why \"now\"?".to_string() }.message(),
        "no answer recorded for question \"why \\\"now\\\"?\""
    );
    assert_eq!(KnowledgeError::Other { message: "backend down".to_string() }.message(), "backend down");
}

#[test]
fn clarify_error_no_answer_display_carries_question_literal() {
    let err = KnowledgeError::NoAnswer { question: "what".to_string() };
    let rendered = err.message();
    assert!(rendered.contains("what"), "the message should carry the question literal; got: {rendered}");
}

#[test]
fn clarify_error_renders_the_knowledge_message() {
    let err = ClarifyError::Knowledge(KnowledgeError::NoBackendConfigured);
    assert_eq!(err.message(), "no knowledge backend configured");
}
