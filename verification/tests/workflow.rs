use ailly::workflow::{
    build_template_context, complete_task, evaluation_result, find_next_n, plan_step, requeue, stop_result,
    turn_file_name, validate_inputs, InputSpec, StepPlan, Task, TaskAction, Workflow, WorkflowError, WorkflowState,
    WorkflowStopReason,
};

fn task(name: &str, prompt: &str, next: &[(&str, &str)]) -> Task {
    Task {
        name: name.to_string(),
        skills: Vec::new(),
        task: TaskAction::Prompt { text: prompt.to_string() },
        evaluation: None,
        next: next.iter().map(|(k, v)| (k.to_string(), v.to_string())).collect(),
    }
}

fn workflow(name: &str, start: &str, inputs: Vec<(String, InputSpec)>, tasks: Vec<Task>) -> Workflow {
    Workflow {
        name: name.to_string(),
        description: None,
        start: start.to_string(),
        inputs,
        tasks,
    }
}

#[test]
fn malformed_input_pattern_surfaces_as_input_pattern_mismatch() {
    let inputs = vec![(
        "topic".to_string(),
        InputSpec {
            description: "broken regex".to_string(),
            required: true,
            pattern: Some("[".to_string()),
        },
    )];
    let wf = workflow("broken-pattern", "first", inputs, vec![task("first", "noop", &[])]);
    let mut state = WorkflowState::initial(&wf);
    state.inputs.push(("topic".to_string(), "anything".to_string()));
    match validate_inputs(&wf, &state).expect_err("malformed pattern must reject construction") {
        WorkflowError::InputPatternMismatch { name, value, pattern } => {
            assert_eq!(name, "topic");
            assert_eq!(pattern, "[");
            assert!(value.contains("pattern compile error"), "value should signal compile failure: {value}");
        }
        other => panic!("expected InputPatternMismatch, got {other:?}"),
    }
}

#[test]
fn required_input_missing_and_pattern_mismatch_are_reported() {
    let inputs = vec![
        (
            "a".to_string(),
            InputSpec { description: String::new(), required: true, pattern: None },
        ),
        (
            "b".to_string(),
            InputSpec { description: String::new(), required: false, pattern: Some("^[0-9]+$".to_string()) },
        ),
    ];
    let wf = workflow("w", "t", inputs, vec![task("t", "x", &[])]);
    let mut state = WorkflowState::initial(&wf);
    assert_eq!(validate_inputs(&wf, &state), Err(WorkflowError::MissingInput { name: "a".to_string() }));
    state.inputs.push(("a".to_string(), "1".to_string()));
    state.inputs.push(("b".to_string(), "x1".to_string()));
    assert!(matches!(validate_inputs(&wf, &state), Err(WorkflowError::InputPatternMismatch { .. })));
    state.inputs[1].1 = "12".to_string();
    assert_eq!(validate_inputs(&wf, &state), Ok(()));
}

#[test]
fn one_task_workflow_plans_its_start_then_finishes() {
    let wf = workflow("w", "first", Vec::new(), vec![task("first", "say hi", &[])]);
    let mut state = WorkflowState::initial(&wf);
    match plan_step(&wf, &mut state, "2026-01-02") {
        StepPlan::Run { task, prompt } => {
            assert_eq!(task, 0);
            assert_eq!(prompt, "say hi");
        }
        other => panic!("expected Run, got {other:?}"),
    }
    assert!(state.queue.is_empty());
    let (next, unrouted) = complete_task(&wf.tasks[0], &mut state, "first", "01_first.toml", "done");
    assert_eq!(next, None);
    assert!(!unrouted);
    assert_eq!(state.last_result.as_deref(), Some("done"));
    assert_eq!(state.history.len(), 1);
    assert_eq!(plan_step(&wf, &mut state, "2026-01-02"), StepPlan::Finish);
}

#[test]
fn two_task_workflow_runs_first_then_second() {
    let wf = workflow(
        "w",
        "first",
        Vec::new(),
        vec![task("first", "one", &[("ok", "second")]), task("second", "two", &[])],
    );
    let mut state = WorkflowState::initial(&wf);
    assert!(matches!(plan_step(&wf, &mut state, "d"), StepPlan::Run { task: 0, .. }));
    let (next, _) = complete_task(&wf.tasks[0], &mut state, "first", "01_first.toml", "ok");
    assert_eq!(next.as_deref(), Some("second"));
    match plan_step(&wf, &mut state, "d") {
        StepPlan::Run { task, prompt } => {
            assert_eq!(task, 1);
            assert!(prompt.starts_with("two"));
        }
        other => panic!("expected Run, got {other:?}"),
    }
}

#[test]
fn missing_start_task_yields_unknown_next_and_preserves_queue() {
    let wf = workflow("w", "ghost", Vec::new(), vec![task("first", "x", &[])]);
    let mut state = WorkflowState::initial(&wf);
    match plan_step(&wf, &mut state, "d") {
        StepPlan::Stop(WorkflowStopReason::UnknownNext { task, result }) => {
            assert_eq!(task, "ghost");
            assert_eq!(result, "");
        }
        other => panic!("expected UnknownNext, got {other:?}"),
    }
    assert_eq!(state.queue, vec!["ghost".to_string()]);
}

#[test]
fn unresolved_prompt_placeholder_stops_the_run_and_requeues() {
    let wf = workflow("w", "first", Vec::new(), vec![task("first", "hello {{ nobody }}", &[])]);
    let mut state = WorkflowState::initial(&wf);
    match plan_step(&wf, &mut state, "d") {
        StepPlan::Stop(WorkflowStopReason::TaskFailed { task, error }) => {
            assert_eq!(task, "first");
            assert!(error.contains("nobody"), "{error}");
        }
        other => panic!("expected TaskFailed, got {other:?}"),
    }
    assert_eq!(state.queue, vec!["first".to_string()]);
}

#[test]
fn workflow_inputs_substitute_into_prompt_text() {
    let wf = workflow("w", "first", Vec::new(), vec![task("first", "about {{ vars.topic }}", &[])]);
    let mut state = WorkflowState::initial(&wf);
    state.inputs.push(("topic".to_string(), "rust".to_string()));
    match plan_step(&wf, &mut state, "d") {
        StepPlan::Run { prompt, .. } => assert_eq!(prompt, "about rust"),
        other => panic!("expected Run, got {other:?}"),
    }
    let ctx = build_template_context(&state);
    assert_eq!(ctx.get("vars.topic"), Some("rust"));
}

#[test]
fn task_results_route_on_trimmed_evaluation_answers() {
    assert_eq!(evaluation_result(Some("  yes \n")), "yes");
    assert_eq!(evaluation_result(None), "error");
    assert_eq!(stop_result(Some("end_turn")), "end_turn");
    assert_eq!(stop_result(None), "error");
}

#[test]
fn unknown_result_label_reports_an_unrouted_task() {
    let wf = workflow("w", "first", Vec::new(), vec![task("first", "x", &[("yes", "second")])]);
    let mut state = WorkflowState::initial(&wf);
    plan_step(&wf, &mut state, "d");
    let (next, unrouted) = complete_task(&wf.tasks[0], &mut state, "first", "01_first.toml", "maybe");
    assert_eq!(next, None);
    assert!(unrouted);
}

#[test]
fn requeue_puts_the_task_back_in_front() {
    let wf = workflow("w", "first", Vec::new(), vec![task("first", "x", &[])]);
    let mut state = WorkflowState::initial(&wf);
    requeue(&mut state, "again".to_string());
    assert_eq!(state.queue, vec!["again".to_string(), "first".to_string()]);
}

#[test]
fn next_turn_number_follows_the_largest_toml_prefix() {
    let names = vec![
        "01_first.toml".to_string(),
        "07_second.toml".to_string(),
        "12_notes.txt".to_string(),
        "workflow.state.toml".to_string(),
    ];
    assert_eq!(find_next_n(&names), Some(8));
    assert_eq!(find_next_n(&Vec::new()), Some(1));
    assert_eq!(find_next_n(&vec!["99_last.toml".to_string()]), None);
    assert_eq!(turn_file_name(8, "review"), "08_review.toml");
    assert_eq!(turn_file_name(42, "x"), "42_x.toml");
}

#[test]
fn today_and_session_dir_resolve_in_prompts() {
    let wf = workflow(
        "w",
        "first",
        Vec::new(),
        vec![task("first", "on {{ today }} in {{ session_dir }}", &[])],
    );
    let mut state = WorkflowState::initial(&wf);
    state.inputs.push(("topic".to_string(), "caching".to_string()));
    match plan_step(&wf, &mut state, "2026-03-04") {
        StepPlan::Run { prompt, .. } => {
            assert_eq!(prompt, "on 2026-03-04 in docs/developer/2026-03-04-A-caching")
        }
        other => panic!("expected Run, got {other:?}"),
    }
    assert_eq!(state.context_seed.today.as_deref(), Some("2026-03-04"));
    assert_eq!(state.context_seed.session_dir.as_deref(), Some("docs/developer/2026-03-04-A-caching"));
}

#[test]
fn unknown_task_leaves_the_seed_unresolved() {
    let wf = workflow("w", "missing", Vec::new(), vec![task("first", "hi", &[])]);
    let mut state = WorkflowState::initial(&wf);
    plan_step(&wf, &mut state, "2026-03-04");
    assert_eq!(state.context_seed.today, None);
}
