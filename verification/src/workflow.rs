//! Workflows: tasks chained by the result of each, their persisted state,
//! and the decisions the workflow runtime takes between engine calls.
use vstd::prelude::*;

use crate::assertions::{debug_quoted, regex_compile_error, regex_error, regex_finds, regex_is_match};
use crate::template::{spec_substitute, substitute, Context, UnresolvedPlaceholder};
use crate::text::{dec, push_decimal, push_str, str_eq, trim, trim_bounds, chars_of, string_of};

verus! {

/// A declared workflow input.
#[derive(Debug, Clone, PartialEq, Eq)]
pub struct InputSpec {
    pub description: String,
    pub required: bool,
    pub pattern: Option<String>,
}

/// What a task does: send a prompt, or call a tool (its arguments as TOML text).
#[derive(Debug, Clone, PartialEq, Eq)]
pub enum TaskAction {
    Prompt { text: String },
    ToolCall { tool: String, args: String },
}

/// One task: its action, an optional evaluation, and the next task for each result.
#[derive(Debug, Clone, PartialEq, Eq)]
pub struct Task {
    pub name: String,
    pub skills: Vec<String>,
    pub task: TaskAction,
    pub evaluation: Option<TaskAction>,
    /// Result to next task, in key order.
    pub next: Vec<(String, String)>,
}

/// A workflow. `inputs` is in name order.
#[derive(Debug, Clone, PartialEq, Eq)]
pub struct Workflow {
    pub name: String,
    pub description: Option<String>,
    pub start: String,
    pub inputs: Vec<(String, InputSpec)>,
    pub tasks: Vec<Task>,
}

/// Errors of a workflow definition or run.
#[derive(Debug, Clone, PartialEq, Eq)]
pub enum WorkflowError {
    UnknownTask { workflow: String, name: String },
    UnresolvedTemplate { task: String, placeholder: String },
    MissingInput { name: String },
    InputPatternMismatch { name: String, value: String, pattern: String },
    ToolCallTaskNotImplemented { task: String },
    UnknownEvalTool { task: String, tool: String },
    EvalArgsEncode { task: String, tool: String, source: String },
}

/// The mathematical form of a [`WorkflowError`].
pub enum WorkflowErrorView {
    UnknownTask(Seq<char>, Seq<char>),
    UnresolvedTemplate(Seq<char>, Seq<char>),
    MissingInput(Seq<char>),
    InputPatternMismatch(Seq<char>, Seq<char>, Seq<char>),
    ToolCallTaskNotImplemented(Seq<char>),
    UnknownEvalTool(Seq<char>, Seq<char>),
    EvalArgsEncode(Seq<char>, Seq<char>, Seq<char>),
}

/// The view of an error.
pub open spec fn workflow_error_view(e: WorkflowError) -> WorkflowErrorView {
    match e {
        WorkflowError::UnknownTask { workflow, name } => WorkflowErrorView::UnknownTask(workflow@, name@),
        WorkflowError::UnresolvedTemplate { task, placeholder } => WorkflowErrorView::UnresolvedTemplate(task@, placeholder@),
        WorkflowError::MissingInput { name } => WorkflowErrorView::MissingInput(name@),
        WorkflowError::InputPatternMismatch { name, value, pattern } => WorkflowErrorView::InputPatternMismatch(
            name@,
            value@,
            pattern@,
        ),
        WorkflowError::ToolCallTaskNotImplemented { task } => WorkflowErrorView::ToolCallTaskNotImplemented(task@),
        WorkflowError::UnknownEvalTool { task, tool } => WorkflowErrorView::UnknownEvalTool(task@, tool@),
        WorkflowError::EvalArgsEncode { task, tool, source } => WorkflowErrorView::EvalArgsEncode(
            task@,
            tool@,
            source@,
        ),
    }
}

/// The message of an error.
pub open spec fn workflow_error_message(e: WorkflowErrorView) -> Seq<char> {
    match e {
        WorkflowErrorView::UnknownTask(w, n) => "workflow "@ + debug_quoted(w) + " has no task named "@
            + debug_quoted(n),
        WorkflowErrorView::UnresolvedTemplate(t, p) => "task "@ + debug_quoted(t)
            + " references unresolved template placeholder "@ + debug_quoted(p),
        WorkflowErrorView::MissingInput(n) => "workflow input "@ + debug_quoted(n)
            + " is required but the harness supplied no value"@,
        WorkflowErrorView::InputPatternMismatch(n, v, p) => "workflow input "@ + debug_quoted(n) + " value "@
            + debug_quoted(v) + " does not match required pattern "@ + debug_quoted(p),
        WorkflowErrorView::ToolCallTaskNotImplemented(t) => "task "@ + debug_quoted(t)
            + " uses TaskAction::ToolCall, which is not yet supported as a `task` action (only as `evaluation`)"@,
        WorkflowErrorView::UnknownEvalTool(t, tool) => "task "@ + debug_quoted(t) + " evaluation references unknown tool "@
            + debug_quoted(tool),
        WorkflowErrorView::EvalArgsEncode(t, tool, s) => "task "@ + debug_quoted(t) + " evaluation tool "@
            + debug_quoted(tool) + " could not encode args as JSON: "@ + s,
    }
}

fn push_quoted(out: &mut String, s: &str)
    ensures
        final(out)@ == old(out)@ + debug_quoted(s@),
{
    let q = crate::assertions::debug_quote(s);
    push_str(out, q.as_str());
}

impl WorkflowError {
    /// The error's message.
    pub fn message(&self) -> (r: String)
        ensures
            r@ == workflow_error_message(workflow_error_view(*self)),
    {
        let mut out = String::new();
        match self {
            WorkflowError::UnknownTask { workflow, name } => {
                push_str(&mut out, "workflow ");
                push_quoted(&mut out, workflow.as_str());
                push_str(&mut out, " has no task named ");
                push_quoted(&mut out, name.as_str());
            },
            WorkflowError::UnresolvedTemplate { task, placeholder } => {
                push_str(&mut out, "task ");
                push_quoted(&mut out, task.as_str());
                push_str(&mut out, " references unresolved template placeholder ");
                push_quoted(&mut out, placeholder.as_str());
            },
            WorkflowError::MissingInput { name } => {
                push_str(&mut out, "workflow input ");
                push_quoted(&mut out, name.as_str());
                push_str(&mut out, " is required but the harness supplied no value");
            },
            WorkflowError::InputPatternMismatch { name, value, pattern } => {
                push_str(&mut out, "workflow input ");
                push_quoted(&mut out, name.as_str());
                push_str(&mut out, " value ");
                push_quoted(&mut out, value.as_str());
                push_str(&mut out, " does not match required pattern ");
                push_quoted(&mut out, pattern.as_str());
            },
            WorkflowError::ToolCallTaskNotImplemented { task } => {
                push_str(&mut out, "task ");
                push_quoted(&mut out, task.as_str());
                push_str(
                    &mut out,
                    " uses TaskAction::ToolCall, which is not yet supported as a `task` action (only as `evaluation`)",
                );
            },
            WorkflowError::UnknownEvalTool { task, tool } => {
                push_str(&mut out, "task ");
                push_quoted(&mut out, task.as_str());
                push_str(&mut out, " evaluation references unknown tool ");
                push_quoted(&mut out, tool.as_str());
            },
            WorkflowError::EvalArgsEncode { task, tool, source } => {
                push_str(&mut out, "task ");
                push_quoted(&mut out, task.as_str());
                push_str(&mut out, " evaluation tool ");
                push_quoted(&mut out, tool.as_str());
                push_str(&mut out, " could not encode args as JSON: ");
                push_str(&mut out, source.as_str());
            },
        }
        out
    }
}

fn find_task_index(workflow: &Workflow, name: &str) -> (r: Option<usize>)
    ensures
        match r {
            Some(i) => i < workflow.tasks@.len() && workflow.tasks@[i as int].name@ == name@
                && forall|j: int| 0 <= j < i ==> workflow.tasks@[j].name@ != name@,
            None => forall|j: int| 0 <= j < workflow.tasks@.len() ==> workflow.tasks@[j].name@ != name@,
        },
{
    let mut i: usize = 0;
    while i < workflow.tasks.len()
        invariant
            i <= workflow.tasks@.len(),
            forall|j: int| 0 <= j < i ==> workflow.tasks@[j].name@ != name@,
        decreases workflow.tasks.len() - i,
    {
        if str_eq(workflow.tasks[i].name.as_str(), name) {
            return Some(i);
        }
        i += 1;
    }
    None
}

impl Workflow {
    /// The first task named `name`, or `UnknownTask`.
    pub fn find_task(&self, name: &str) -> (r: Result<&Task, WorkflowError>)
        ensures
            match r {
                Ok(t) => exists|i: int| 0 <= i < self.tasks@.len() && self.tasks@[i] == *t && t.name@ == name@
                    && forall|j: int| 0 <= j < i ==> self.tasks@[j].name@ != name@,
                Err(e) => (forall|j: int| 0 <= j < self.tasks@.len() ==> self.tasks@[j].name@ != name@)
                    && workflow_error_view(e) == WorkflowErrorView::UnknownTask(self.name@, name@),
            },
    {
        match find_task_index(self, name) {
            Some(i) => Ok(&self.tasks[i]),
            None => Err(WorkflowError::UnknownTask { workflow: self.name.clone(), name: name.to_owned() }),
        }
    }
}

/// Values that seed the template context of a run.
#[derive(Debug, Clone, PartialEq, Eq)]
pub struct ContextSeed {
    pub today: Option<String>,
    pub session_dir: Option<String>,
}

/// One task run of the history.
#[derive(Debug, Clone, PartialEq, Eq)]
pub struct HistoryEntry {
    pub task: String,
    pub turn: String,
    pub result: String,
}

/// The persisted state of a workflow run. `inputs` is in name order; the
/// front of `queue` is its first element.
#[derive(Debug, Clone, PartialEq, Eq)]
pub struct WorkflowState {
    pub workflow: String,
    pub inputs: Vec<(String, String)>,
    pub context_seed: ContextSeed,
    pub queue: Vec<String>,
    pub last_result: Option<String>,
    pub history: Vec<HistoryEntry>,
}

/// Whether the seed holds nothing (it is then left out when the state is written).
pub fn is_default_context_seed(seed: &ContextSeed) -> (r: bool)
    ensures
        r == (seed.today is None && seed.session_dir is None),
{
    seed.today.is_none() && seed.session_dir.is_none()
}

/// The string values as plain values.
pub open spec fn pairs_view(v: Seq<(String, String)>) -> Seq<(Seq<char>, Seq<char>)> {
    v.map_values(|e: (String, String)| (e.0@, e.1@))
}

impl WorkflowState {
    /// The state of a fresh run: the start task queued, nothing else.
    pub fn initial(workflow: &Workflow) -> (s: Self)
        ensures
            s.workflow@ == workflow.name@,
            s.inputs@.len() == 0,
            s.context_seed.today is None,
            s.context_seed.session_dir is None,
            s.queue@.len() == 1,
            s.queue@[0]@ == workflow.start@,
            s.last_result is None,
            s.history@.len() == 0,
    {
        let mut queue: Vec<String> = Vec::new();
        queue.push(workflow.start.clone());
        WorkflowState {
            workflow: workflow.name.clone(),
            inputs: Vec::new(),
            context_seed: ContextSeed { today: None, session_dir: None },
            queue,
            last_result: None,
            history: Vec::new(),
        }
    }
}


/// The value of the first entry named `key`.
pub open spec fn lookup_pair(v: Seq<(Seq<char>, Seq<char>)>, key: Seq<char>) -> Option<Seq<char>>
    decreases v.len(),
{
    if v.len() == 0 {
        None
    } else if v[0].0 == key {
        Some(v[0].1)
    } else {
        lookup_pair(v.drop_first(), key)
    }
}

fn find_pair<'a>(v: &'a Vec<(String, String)>, key: &str) -> (r: Option<&'a String>)
    ensures
        match lookup_pair(pairs_view(v@), key@) {
            Some(x) => r matches Some(s) && s@ == x,
            None => r is None,
        },
{
    let ghost pv = pairs_view(v@);
    let mut i: usize = 0;
    assert(pv.skip(0) =~= pv);
    while i < v.len()
        invariant
            i <= v@.len(),
            pv == pairs_view(v@),
            lookup_pair(pv, key@) == lookup_pair(pv.skip(i as int), key@),
        decreases v.len() - i,
    {
        let ghost rest = pv.skip(i as int);
        assert(rest[0] == pv[i as int]);
        if str_eq(v[i].0.as_str(), key) {
            return Some(&v[i].1);
        }
        assert(rest.drop_first() =~= pv.skip(i + 1));
        i += 1;
    }
    None
}

/// What is wrong with the supplied inputs as to the declared input `name`.
pub open spec fn input_problem(name: Seq<char>, spec: InputSpec, inputs: Seq<(Seq<char>, Seq<char>)>) -> Option<WorkflowErrorView> {
    match lookup_pair(inputs, name) {
        None => if spec.required { Some(WorkflowErrorView::MissingInput(name)) } else { None },
        Some(value) => match spec.pattern {
            None => None,
            Some(p) => if regex_error(p@) is Some {
                Some(WorkflowErrorView::InputPatternMismatch(name, "<pattern compile error>"@, p@))
            } else if !regex_finds(p@, value) {
                Some(WorkflowErrorView::InputPatternMismatch(name, value, p@))
            } else {
                None
            },
        },
    }
}

/// The problem of the first declared input among the first `n` that has one.
pub open spec fn first_input_problem(
    declared: Seq<(String, InputSpec)>,
    inputs: Seq<(Seq<char>, Seq<char>)>,
    n: int,
) -> Option<WorkflowErrorView>
    decreases n,
{
    if n <= 0 {
        None
    } else {
        match first_input_problem(declared, inputs, n - 1) {
            Some(e) => Some(e),
            None => input_problem(declared[n - 1].0@, declared[n - 1].1, inputs),
        }
    }
}

proof fn lemma_first_input_problem_stays(declared: Seq<(String, InputSpec)>, inputs: Seq<(Seq<char>, Seq<char>)>, n: int, m: int)
    requires
        0 <= n <= m,
        first_input_problem(declared, inputs, n) is Some,
    ensures
        first_input_problem(declared, inputs, m) == first_input_problem(declared, inputs, n),
    decreases m - n,
{
    if m > n {
        lemma_first_input_problem_stays(declared, inputs, n, m - 1);
    }
}

/// Checks the supplied inputs against the declared ones, in name order: a
/// required input must be supplied, and a supplied input with a pattern
/// must match it (a pattern that does not compile is reported as a
/// mismatch).
pub fn validate_inputs(workflow: &Workflow, state: &WorkflowState) -> (r: Result<(), WorkflowError>)
    ensures
        match first_input_problem(workflow.inputs@, pairs_view(state.inputs@), workflow.inputs@.len() as int) {
            Some(e) => r matches Err(x) && workflow_error_view(x) == e,
            None => r is Ok,
        },
{
    let ghost iv = pairs_view(state.inputs@);
    let mut i: usize = 0;
    while i < workflow.inputs.len()
        invariant
            i <= workflow.inputs@.len(),
            iv == pairs_view(state.inputs@),
            first_input_problem(workflow.inputs@, iv, i as int) is None,
        decreases workflow.inputs.len() - i,
    {
        let name = &workflow.inputs[i].0;
        let spec = &workflow.inputs[i].1;
        proof {
            if input_problem(name@, *spec, iv) is Some {
                assert(first_input_problem(workflow.inputs@, iv, i + 1) == input_problem(name@, *spec, iv));
                lemma_first_input_problem_stays(workflow.inputs@, iv, i + 1, workflow.inputs@.len() as int);
            }
        }
        match find_pair(&state.inputs, name.as_str()) {
            None => {
                if spec.required {
                    return Err(WorkflowError::MissingInput { name: name.clone() });
                }
            },
            Some(value) => {
                match &spec.pattern {
                    None => {},
                    Some(pattern) => {
                        if regex_compile_error(pattern.as_str()).is_some() {
                            return Err(WorkflowError::InputPatternMismatch {
                                name: name.clone(),
                                value: "<pattern compile error>".to_owned(),
                                pattern: pattern.clone(),
                            });
                        }
                        if !regex_is_match(pattern.as_str(), value.as_str()) {
                            return Err(WorkflowError::InputPatternMismatch {
                                name: name.clone(),
                                value: value.clone(),
                                pattern: pattern.clone(),
                            });
                        }
                    },
                }
            },
        }
        i += 1;
    }
    Ok(())
}

/// The session directory derived from the date and topic.
pub open spec fn session_dir_for(today: Seq<char>, topic: Seq<char>) -> Seq<char> {
    "docs/developer/"@ + today + "-A-"@ + topic
}

/// The seed after [`resolve_context_seed`] with `now` as today's date.
pub open spec fn resolved_seed(seed: ContextSeed, inputs: Seq<(Seq<char>, Seq<char>)>, now: Seq<char>) -> (Option<Seq<char>>, Option<Seq<char>>) {
    let today = match seed.today { Some(t) => t@, None => now };
    let session = match seed.session_dir {
        Some(d) => Some(d@),
        None => match lookup_pair(inputs, "topic"@) {
            Some(topic) => Some(session_dir_for(today, topic)),
            None => None,
        },
    };
    (Some(today), session)
}

/// A context seed as plain values: `today`, then `session_dir`.
pub open spec fn seed_view(seed: ContextSeed) -> (Option<Seq<char>>, Option<Seq<char>>) {
    (
        match seed.today { Some(t) => Some(t@), None => None::<Seq<char>> },
        match seed.session_dir { Some(d) => Some(d@), None => None::<Seq<char>> },
    )
}

/// Fills the context seed of a run: `today` (the date text `now`, such as
/// `2025-01-31`) when absent, and `session_dir` from `today` and the
/// `topic` input when absent and a topic is given. A seed already filled
/// is kept.
pub fn resolve_context_seed(state: &mut WorkflowState, now: &str)
    ensures
        seed_view(final(state).context_seed) == resolved_seed(old(state).context_seed, pairs_view(old(state).inputs@), now@),
        final(state).workflow == old(state).workflow,
        final(state).inputs == old(state).inputs,
        final(state).queue == old(state).queue,
        final(state).last_result == old(state).last_result,
        final(state).history == old(state).history,
{
    if state.context_seed.today.is_none() {
        state.context_seed.today = Some(now.to_owned());
    }
    if state.context_seed.session_dir.is_none() {
        let topic = match find_pair(&state.inputs, "topic") {
            Some(t) => Some(t.clone()),
            None => None,
        };
        match (topic, &state.context_seed.today) {
            (Some(t), Some(today)) => {
                let mut d = String::new();
                push_str(&mut d, "docs/developer/");
                push_str(&mut d, today.as_str());
                push_str(&mut d, "-A-");
                push_str(&mut d, t.as_str());
                state.context_seed.session_dir = Some(d);
            },
            _ => {},
        }
    }
}

/// The template values of the inputs: `vars.<name>` for each.
pub open spec fn vars_map(inputs: Seq<(Seq<char>, Seq<char>)>) -> Map<Seq<char>, Seq<char>>
    decreases inputs.len(),
{
    if inputs.len() == 0 {
        Map::empty()
    } else {
        vars_map(inputs.drop_last()).insert("vars."@ + inputs.last().0, inputs.last().1)
    }
}

/// The template values of a state: its inputs, then `today` and
/// `session_dir` when seeded.
pub open spec fn template_map(state: WorkflowState) -> Map<Seq<char>, Seq<char>> {
    let m = vars_map(pairs_view(state.inputs@));
    let m2 = match state.context_seed.today { Some(t) => m.insert("today"@, t@), None => m };
    match state.context_seed.session_dir { Some(d) => m2.insert("session_dir"@, d@), None => m2 }
}

/// The template context of a state (see [`template_map`]).
pub fn build_template_context(state: &WorkflowState) -> (c: Context)
    ensures
        c.view() == template_map(*state),
{
    let ghost iv = pairs_view(state.inputs@);
    let mut ctx = Context::new();
    let mut i: usize = 0;
    while i < state.inputs.len()
        invariant
            i <= state.inputs@.len(),
            iv == pairs_view(state.inputs@),
            ctx.view() == vars_map(iv.take(i as int)),
        decreases state.inputs.len() - i,
    {
        let mut key = String::new();
        push_str(&mut key, "vars.");
        push_str(&mut key, state.inputs[i].0.as_str());
        ctx.insert(key.as_str(), state.inputs[i].1.as_str());
        proof {
            assert(iv.take(i + 1).drop_last() =~= iv.take(i as int));
            assert(iv.take(i + 1).last() == iv[i as int]);
        }
        i += 1;
    }
    assert(iv.take(iv.len() as int) =~= iv);
    match &state.context_seed.today {
        Some(t) => ctx.insert("today", t.as_str()),
        None => {},
    }
    match &state.context_seed.session_dir {
        Some(d) => ctx.insert("session_dir", d.as_str()),
        None => {},
    }
    ctx
}


/// Why a workflow run stopped.
#[derive(Debug, Clone, PartialEq, Eq)]
pub enum WorkflowStopReason {
    Completed,
    UnknownNext { task: String, result: String },
    TaskFailed { task: String, error: String },
    /// The queue ran out but the state could not be persisted.
    StatePersistFailed { error: String },
    Cancelled,
}

/// What the runtime does next.
#[derive(Debug, Clone, PartialEq, Eq)]
pub enum StepPlan {
    /// The queue is empty: persist the state and finish.
    Finish,
    /// Stop for this reason; the task is back at the front of the queue.
    Stop(WorkflowStopReason),
    /// Run task `task` (an index into the workflow's tasks) with this prompt.
    Run { task: usize, prompt: String },
}

proof fn lemma_cons(s: Seq<String>)
    requires
        s.len() > 0,
    ensures
        s == seq![s[0]] + s.drop_first(),
{
    assert(s =~= seq![s[0]] + s.drop_first());
}

/// Puts `task_name` back at the front of the queue.
pub fn requeue(state: &mut WorkflowState, task_name: String)
    ensures
        final(state).queue@.len() == old(state).queue@.len() + 1,
        final(state).queue@[0] == task_name,
        final(state).queue@.drop_first() == old(state).queue@,
        final(state).workflow == old(state).workflow,
        final(state).inputs == old(state).inputs,
        final(state).context_seed == old(state).context_seed,
        final(state).last_result == old(state).last_result,
        final(state).history == old(state).history,
{
    state.queue.insert(0, task_name);
    assert(state.queue@.drop_first() =~= old(state).queue@);
}

/// A stop for a failed task, carrying the error's message.
pub fn task_failed(task: &str, error: &WorkflowError) -> (r: WorkflowStopReason)
    ensures
        r matches WorkflowStopReason::TaskFailed { task: t, error: e } && t@ == task@
            && e@ == workflow_error_message(workflow_error_view(*error)),
{
    WorkflowStopReason::TaskFailed { task: task.to_owned(), error: error.message() }
}

/// Takes the next task off the queue and prepares it: an empty queue
/// finishes the run; a task the workflow does not define stops it with
/// `UnknownNext`; otherwise the context seed is resolved with `now` as
/// today's date and the task's prompt is rendered, and a prompt with an
/// unresolved placeholder, or a tool-call task, stops it with
/// `TaskFailed`. Whenever the run stops, the task goes back to the front
/// of the queue.
pub fn plan_step(workflow: &Workflow, state: &mut WorkflowState, now: &str) -> (r: StepPlan)
    ensures
        old(state).queue@.len() == 0 ==> r == StepPlan::Finish && *final(state) == *old(state),
        old(state).queue@.len() > 0 ==> {
            let name = old(state).queue@[0]@;
            match r {
                StepPlan::Finish => false,
                StepPlan::Stop(reason) => final(state).queue@ == old(state).queue@ && match reason {
                    WorkflowStopReason::UnknownNext { task, result } => task@ == name && result@.len() == 0
                        && (forall|j: int| 0 <= j < workflow.tasks@.len() ==> workflow.tasks@[j].name@ != name),
                    WorkflowStopReason::TaskFailed { task, error } => task@ == name && exists|i: int|
                        0 <= i < workflow.tasks@.len() && workflow.tasks@[i].name@ == name && (match workflow.tasks@[i].task {
                            TaskAction::Prompt { text } => spec_substitute(text@, template_map(*final(state))) matches Err(p)
                                && error@ == workflow_error_message(WorkflowErrorView::UnresolvedTemplate(name, p)),
                            TaskAction::ToolCall { .. } => error@ == workflow_error_message(
                                WorkflowErrorView::ToolCallTaskNotImplemented(name),
                            ),
                        }),
                    _ => false,
                },
                StepPlan::Run { task, prompt } => {
                    &&& task < workflow.tasks@.len()
                    &&& workflow.tasks@[task as int].name@ == name
                    &&& (forall|j: int| 0 <= j < task ==> workflow.tasks@[j].name@ != name)
                    &&& final(state).queue@ == old(state).queue@.drop_first()
                    &&& workflow.tasks@[task as int].task matches TaskAction::Prompt { text }
                    &&& spec_substitute(text@, template_map(*final(state))) == Ok::<Seq<char>, Seq<char>>(prompt@)
                },
            }
        },
        old(state).queue@.len() > 0 ==> if exists|j: int|
            0 <= j < workflow.tasks@.len() && #[trigger] workflow.tasks@[j].name@ == old(state).queue@[0]@ {
            seed_view(final(state).context_seed) == resolved_seed(
                old(state).context_seed,
                pairs_view(old(state).inputs@),
                now@,
            )
        } else {
            final(state).context_seed == old(state).context_seed
        },
        final(state).workflow == old(state).workflow,
        final(state).inputs == old(state).inputs,
        final(state).last_result == old(state).last_result,
        final(state).history == old(state).history,
{
    if state.queue.len() == 0 {
        return StepPlan::Finish;
    }
    let name = state.queue.remove(0);
    let ghost q = old(state).queue@;
    assert(name == q[0]);
    assert(state.queue@ =~= q.drop_first());
    match find_task_index(workflow, name.as_str()) {
        None => {
            let stop = WorkflowStopReason::UnknownNext { task: name.clone(), result: String::new() };
            requeue(state, name);
            proof {
                lemma_cons(state.queue@);
                lemma_cons(q);
            }
            StepPlan::Stop(stop)
        },
        Some(i) => {
            resolve_context_seed(state, now);
            let ctx = build_template_context(state);
            match &workflow.tasks[i].task {
                TaskAction::Prompt { text } => {
                    match substitute(text.as_str(), &ctx) {
                        Ok(prompt) => StepPlan::Run { task: i, prompt },
                        Err(UnresolvedPlaceholder { placeholder }) => {
                            let e = WorkflowError::UnresolvedTemplate { task: name.clone(), placeholder };
                            let stop = task_failed(name.as_str(), &e);
                            requeue(state, name);
                            proof {
                lemma_cons(state.queue@);
                lemma_cons(q);
            }
                            StepPlan::Stop(stop)
                        },
                    }
                },
                TaskAction::ToolCall { .. } => {
                    let e = WorkflowError::ToolCallTaskNotImplemented { task: name.clone() };
                    let stop = task_failed(name.as_str(), &e);
                    requeue(state, name);
                    proof {
                lemma_cons(state.queue@);
                lemma_cons(q);
            }
                    StepPlan::Stop(stop)
                },
            }
        },
    }
}

/// The result of a task whose evaluation prompt answered `answer`: the
/// answer trimmed, or `error` when it gave none.
pub fn evaluation_result(answer: Option<&str>) -> (r: String)
    ensures
        r@ == match answer { Some(a) => trim(a@), None => "error"@ },
{
    match answer {
        Some(a) => {
            let v = chars_of(a);
            let (lo, hi) = trim_bounds(v.as_slice(), 0, v.len());
            assert(v@.subrange(0, v@.len() as int) =~= v@);
            string_of(&v.as_slice()[lo..hi])
        },
        None => "error".to_owned(),
    }
}

/// The result of a task without an evaluation: the engine's stop reason,
/// or `error` when it gave none.
pub fn stop_result(stop_reason: Option<&str>) -> (r: String)
    ensures
        r@ == match stop_reason { Some(s) => s@, None => "error"@ },
{
    match stop_reason {
        Some(s) => s.to_owned(),
        None => "error".to_owned(),
    }
}

/// Records that `task` (run as `task_name`, in the turn file `turn`)
/// finished with `result`: the history gains an entry, the result becomes
/// the last result, and the task that `result` leads to, if any, is
/// queued. Returns the task now at the front of the queue, and whether the
/// task routes by result but has no route for this one.
pub fn complete_task(task: &Task, state: &mut WorkflowState, task_name: &str, turn: &str, result: &str) -> (r: (
    Option<String>,
    bool,
))
    ensures
        final(state).history@.len() == old(state).history@.len() + 1,
        final(state).history@.drop_last() == old(state).history@,
        final(state).history@.last().task@ == task_name@,
        final(state).history@.last().turn@ == turn@,
        final(state).history@.last().result@ == result@,
        final(state).last_result matches Some(l) && l@ == result@,
        match lookup_pair(pairs_view(task.next@), result@) {
            Some(n) => final(state).queue@.len() == old(state).queue@.len() + 1
                && final(state).queue@.drop_last() == old(state).queue@
                && final(state).queue@.last()@ == n
                && !r.1,
            None => final(state).queue@ == old(state).queue@ && r.1 == (task.next@.len() > 0),
        },
        match r.0 {
            Some(f) => final(state).queue@.len() > 0 && f@ == final(state).queue@[0]@,
            None => final(state).queue@.len() == 0,
        },
        final(state).workflow == old(state).workflow,
        final(state).inputs == old(state).inputs,
        final(state).context_seed == old(state).context_seed,
{
    state.history.push(HistoryEntry { task: task_name.to_owned(), turn: turn.to_owned(), result: result.to_owned() });
    assert(state.history@.drop_last() =~= old(state).history@);
    state.last_result = Some(result.to_owned());
    let next = find_pair(&task.next, result);
    let unknown = match next {
        Some(n) => {
            state.queue.push(n.clone());
            assert(state.queue@.drop_last() =~= old(state).queue@);
            false
        },
        None => task.next.len() > 0,
    };
    let front = if state.queue.len() > 0 { Some(state.queue[0].clone()) } else { None };
    (front, unknown)
}


/// Whether `c` is an ASCII digit.
pub open spec fn is_digit(c: char) -> bool {
    '0' <= c && c <= '9'
}

/// The leading ASCII digits of `s`.
pub open spec fn digit_prefix(s: Seq<char>) -> Seq<char>
    decreases s.len(),
{
    if s.len() == 0 || !is_digit(s[0]) {
        Seq::empty()
    } else {
        seq![s[0]] + digit_prefix(s.drop_first())
    }
}

/// The value of a string of ASCII digits.
pub open spec fn digits_value(d: Seq<char>) -> nat
    decreases d.len(),
{
    if d.len() == 0 {
        0
    } else {
        digits_value(d.drop_last()) * 10 + ((d.last() as u32) - ('0' as u32)) as nat
    }
}

/// Whether `s` ends with `.toml`.
pub open spec fn is_toml_name(s: Seq<char>) -> bool {
    s.len() >= 5 && s.subrange(s.len() - 5, s.len() as int) == ".toml"@
}

/// The turn number a file name carries: its leading digits, for a `.toml`
/// file whose leading digits are a `u32`.
pub open spec fn turn_number(name: Seq<char>) -> Option<nat> {
    let d = digit_prefix(name);
    if is_toml_name(name) && d.len() > 0 && digits_value(d) <= u32::MAX {
        Some(digits_value(d))
    } else {
        None
    }
}

/// The largest turn number among the names (0 when there is none).
pub open spec fn max_turn(names: Seq<Seq<char>>) -> nat
    decreases names.len(),
{
    if names.len() == 0 {
        0
    } else {
        let m = max_turn(names.drop_last());
        match turn_number(names.last()) {
            Some(n) => if n > m { n } else { m },
            None => m,
        }
    }
}

proof fn lemma_digit_prefix_step(s: Seq<char>, i: int)
    requires
        0 <= i < s.len(),
        forall|j: int| 0 <= j < i ==> is_digit(s[j]),
        is_digit(s[i]),
    ensures
        digit_prefix(s).len() > i,
        digit_prefix(s)[i] == s[i],
    decreases i,
{
    if i > 0 {
        lemma_digit_prefix_step(s.drop_first(), i - 1);
    }
}

proof fn lemma_digit_prefix_end(s: Seq<char>, i: int)
    requires
        0 <= i <= s.len(),
        forall|j: int| 0 <= j < i ==> is_digit(s[j]),
        i == s.len() || !is_digit(s[i]),
    ensures
        digit_prefix(s) == s.take(i),
    decreases i,
{
    if i > 0 {
        lemma_digit_prefix_end(s.drop_first(), i - 1);
        assert(seq![s[0]] + s.drop_first().take(i - 1) =~= s.take(i));
    } else {
        assert(s.take(0) =~= Seq::<char>::empty());
    }
}

fn leading_number(v: &[char]) -> (r: Option<u32>)
    ensures
        match r {
            Some(n) => digit_prefix(v@).len() > 0 && digits_value(digit_prefix(v@)) == n,
            None => digit_prefix(v@).len() == 0 || digits_value(digit_prefix(v@)) > u32::MAX,
        },
{
    let mut i: usize = 0;
    let mut value: u64 = 0;
    let mut overflow = false;
    while i < v.len() && '0' <= v[i] && v[i] <= '9'
        invariant
            i <= v@.len(),
            forall|j: int| 0 <= j < i ==> is_digit(v@[j]),
            !overflow ==> value == digits_value(v@.take(i as int)) && value <= u32::MAX,
            overflow ==> digits_value(v@.take(i as int)) > u32::MAX,
        decreases v.len() - i,
    {
        proof {
            assert(v@.take(i + 1).drop_last() =~= v@.take(i as int));
            assert(v@.take(i + 1).last() == v@[i as int]);
            if overflow {
                assert(digits_value(v@.take(i + 1)) >= digits_value(v@.take(i as int)) * 10) by (nonlinear_arith)
                    requires
                        digits_value(v@.take(i + 1)) == digits_value(v@.take(i as int)) * 10 + ((v@[i as int] as u32) - ('0' as u32)) as nat,
                ;
            }
        }
        if !overflow {
            let d = (v[i] as u32 - '0' as u32) as u64;
            let next = value * 10 + d;
            if next > 0xFFFF_FFFFu64 {
                overflow = true;
            } else {
                value = next;
            }
        }
        i += 1;
    }
    proof {
        lemma_digit_prefix_end(v@, i as int);
    }
    if i == 0 || overflow {
        None
    } else {
        Some(value as u32)
    }
}

fn is_toml(v: &[char]) -> (r: bool)
    ensures
        r == is_toml_name(v@),
{
    let n = v.len();
    if n < 5 {
        return false;
    }
    let r = v[n - 5] == '.' && v[n - 4] == 't' && v[n - 3] == 'o' && v[n - 2] == 'm' && v[n - 1] == 'l';
    proof {
        reveal_strlit(".toml");
        let tail = v@.subrange(n - 5, n as int);
        if r {
            assert(tail =~= ".toml"@);
        } else {
            if tail == ".toml"@ {
                assert(tail[0] == '.' && tail[1] == 't' && tail[2] == 'o' && tail[3] == 'm' && tail[4] == 'l');
            }
        }
    }
    r
}

/// The number of the next turn file among the directory's file names: one
/// more than the largest turn number, or `None` when that would need more
/// than two digits.
pub fn find_next_n(names: &Vec<String>) -> (r: Option<u32>)
    ensures
        match r {
            Some(n) => n == max_turn(crate::bash::strings_view(names@)) + 1 && n <= 99,
            None => max_turn(crate::bash::strings_view(names@)) + 1 > 99,
        },
{
    let ghost nv = crate::bash::strings_view(names@);
    let mut max_n: u32 = 0;
    let mut i: usize = 0;
    while i < names.len()
        invariant
            i <= names@.len(),
            nv == crate::bash::strings_view(names@),
            max_n == max_turn(nv.take(i as int)),
        decreases names.len() - i,
    {
        proof {
            assert(nv.take(i + 1).drop_last() =~= nv.take(i as int));
            assert(nv.take(i + 1).last() == names@[i as int]@);
        }
        let v = chars_of(names[i].as_str());
        if is_toml(v.as_slice()) {
            match leading_number(v.as_slice()) {
                Some(n) => {
                    if n > max_n {
                        max_n = n;
                    }
                },
                None => {},
            }
        }
        i += 1;
    }
    assert(nv.take(nv.len() as int) =~= nv);
    if max_n >= 99 {
        None
    } else {
        Some(max_n + 1)
    }
}

/// The name of turn file `n` for `suffix`: `n` in two digits at least.
pub open spec fn turn_file_text(n: nat, suffix: Seq<char>) -> Seq<char> {
    (if n < 10 { "0"@ + dec(n) } else { dec(n) }) + "_"@ + suffix + ".toml"@
}

/// The name of turn file `n` for `suffix` (see [`turn_file_text`]).
pub fn turn_file_name(n: u32, suffix: &str) -> (r: String)
    ensures
        r@ == turn_file_text(n as nat, suffix@),
{
    let mut out = String::new();
    if n < 10 {
        push_str(&mut out, "0");
    }
    push_decimal(&mut out, n as u64);
    push_str(&mut out, "_");
    push_str(&mut out, suffix);
    push_str(&mut out, ".toml");
    out
}

/// The largest turn number bounds every turn number present: the next
/// turn file, numbered one more, reuses none of them.
pub proof fn lemma_max_turn_bounds(names: Seq<Seq<char>>, i: int)
    requires
        0 <= i < names.len(),
        turn_number(names[i]) is Some,
    ensures
        turn_number(names[i])->0 <= max_turn(names),
        turn_number(names[i])->0 < max_turn(names) + 1,
    decreases names.len(),
{
    if i < names.len() - 1 {
        lemma_max_turn_bounds(names.drop_last(), i);
        assert(names.drop_last()[i] == names[i]);
    }
}

/// The largest turn number is one that is present, or 0 when no name
/// carries one.
pub proof fn lemma_max_turn_attained(names: Seq<Seq<char>>)
    ensures
        max_turn(names) == 0 || exists|i: int| 0 <= i < names.len() && turn_number(#[trigger] names[i]) == Some(
            max_turn(names),
        ),
    decreases names.len(),
{
    if names.len() > 0 {
        let rest = names.drop_last();
        lemma_max_turn_attained(rest);
        if max_turn(names) != 0 && max_turn(names) == max_turn(rest) {
            let i = choose|i: int| 0 <= i < rest.len() && turn_number(#[trigger] rest[i]) == Some(max_turn(rest));
            assert(names[i] == rest[i]);
        } else if max_turn(names) != 0 {
            assert(turn_number(names[names.len() - 1]) == Some(max_turn(names)));
        }
    }
}

/// The next turn number does not depend on the order in which the
/// directory lists its files: lists holding the same names give the same
/// largest turn number.
pub proof fn lemma_max_turn_order_free(a: Seq<Seq<char>>, b: Seq<Seq<char>>)
    requires
        forall|x: Seq<char>| a.contains(x) <==> b.contains(x),
    ensures
        max_turn(a) == max_turn(b),
{
    lemma_max_turn_attained(a);
    lemma_max_turn_attained(b);
    if max_turn(a) != 0 {
        let i = choose|i: int| 0 <= i < a.len() && turn_number(#[trigger] a[i]) == Some(max_turn(a));
        assert(a.contains(a[i]));
        let j = choose|j: int| 0 <= j < b.len() && b[j] == a[i];
        lemma_max_turn_bounds(b, j);
    }
    if max_turn(b) != 0 {
        let i = choose|i: int| 0 <= i < b.len() && turn_number(#[trigger] b[i]) == Some(max_turn(b));
        assert(b.contains(b[i]));
        let j = choose|j: int| 0 <= j < a.len() && a[j] == b[i];
        lemma_max_turn_bounds(a, j);
    }
}

} // verus!
