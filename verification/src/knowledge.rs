//! The knowledge base: skills, workflows and agent instructions gathered
//! from knowledge roots, the first of each name winning.
use vstd::prelude::*;

use crate::assertions::{debug_list, debug_quote, debug_quoted, push_debug_list};
use crate::skills::{Skill, SkillName};
use crate::text::{contains_seq, find_chars, chars_of, push_str, seq_lt, str_eq, str_lt};
use crate::workflow::Workflow;

verus! {

/// The name of a workflow.
#[derive(Debug, Clone, PartialEq, Eq, Hash)]
pub struct WorkflowName(String);

impl View for WorkflowName {
    type V = Seq<char>;

    closed spec fn view(&self) -> Seq<char> {
        self.0@
    }
}

impl WorkflowName {
    /// A workflow name holding `raw` as it is.
    pub fn new(raw: &str) -> (r: Self)
        ensures
            r@ == raw@,
    {
        WorkflowName(raw.to_owned())
    }

    /// The name's text.
    pub fn as_str(&self) -> (r: &str)
        ensures
            r@ == self@,
    {
        self.0.as_str()
    }

    /// The name's text, as its `Display` rendering gives it.
    pub fn to_string(&self) -> (r: String)
        ensures
            r@ == self@,
    {
        self.0.clone()
    }
}

impl From<String> for WorkflowName {
    fn from(value: String) -> (r: Self) {
        WorkflowName(value)
    }
}

impl vstd::std_specs::convert::FromSpecImpl<String> for WorkflowName {
    open spec fn obeys_from_spec() -> bool {
        true
    }

    closed spec fn from_spec(v: String) -> WorkflowName {
        WorkflowName(v)
    }
}

/// A workflow name made from a string holds that string's text.
pub proof fn lemma_workflow_name_from(v: String)
    ensures
        <WorkflowName as vstd::std_specs::convert::FromSpec<String>>::from_spec(v)@ == v@,
{
}

/// What kind of knowledge an item is.
#[derive(Debug, Clone, Copy, PartialEq, Eq, Structural)]
pub enum KnowledgeKind {
    Any,
    Skill,
    Workflow,
    Agents,
}

/// Errors of knowledge lookup.
#[derive(Debug)]
pub enum KnowledgeError {
    InvalidName { kind: KnowledgeKind, raw: String, reason: String },
    Missing { kind: KnowledgeKind, name: String, search_paths: Vec<String> },
    Read { path: String, message: String },
    NameMismatch { kind: KnowledgeKind, requested: String, declared: String },
    Parse { kind: KnowledgeKind, message: String },
}

/// The `{:?}` rendering of a kind.
pub open spec fn kind_text(k: KnowledgeKind) -> Seq<char> {
    match k {
        KnowledgeKind::Any => "Any"@,
        KnowledgeKind::Skill => "Skill"@,
        KnowledgeKind::Workflow => "Workflow"@,
        KnowledgeKind::Agents => "Agents"@,
    }
}

fn kind_str(k: KnowledgeKind) -> (r: &'static str)
    ensures
        r@ == kind_text(k),
{
    match k {
        KnowledgeKind::Any => "Any",
        KnowledgeKind::Skill => "Skill",
        KnowledgeKind::Workflow => "Workflow",
        KnowledgeKind::Agents => "Agents",
    }
}

/// The message of a knowledge error; names and paths are quoted as `{:?}`
/// renders them.
pub open spec fn knowledge_error_text(e: KnowledgeError) -> Seq<char> {
    match e {
        KnowledgeError::InvalidName { kind, raw, reason } => "invalid "@ + kind_text(kind) + " name "@
            + debug_quoted(raw@) + ": "@ + reason@,
        KnowledgeError::Missing { kind, name, search_paths } => kind_text(kind) + " "@ + debug_quoted(name@)
            + " not found in any of "@ + debug_list(crate::bash::strings_view(search_paths@)),
        KnowledgeError::Read { path, .. } => "could not read knowledge file at "@ + debug_quoted(path@),
        KnowledgeError::NameMismatch { kind, requested, declared } => kind_text(kind) + " requested as "@
            + debug_quoted(requested@) + " but the file declares "@ + debug_quoted(declared@),
        KnowledgeError::Parse { kind, message } => "failed to parse "@ + kind_text(kind) + ": "@ + message@,
    }
}

fn push_quoted(out: &mut String, s: &str)
    ensures
        final(out)@ == old(out)@ + debug_quoted(s@),
{
    let q = debug_quote(s);
    push_str(out, q.as_str());
}

impl KnowledgeError {
    /// The error's message.
    pub fn message(&self) -> (s: String)
        ensures
            s@ == knowledge_error_text(*self),
    {
        let mut s = String::new();
        match self {
            KnowledgeError::InvalidName { kind, raw, reason } => {
                push_str(&mut s, "invalid ");
                push_str(&mut s, kind_str(*kind));
                push_str(&mut s, " name ");
                push_quoted(&mut s, raw.as_str());
                push_str(&mut s, ": ");
                push_str(&mut s, reason.as_str());
            },
            KnowledgeError::Missing { kind, name, search_paths } => {
                push_str(&mut s, kind_str(*kind));
                push_str(&mut s, " ");
                push_quoted(&mut s, name.as_str());
                push_str(&mut s, " not found in any of ");
                push_debug_list(&mut s, search_paths);
            },
            KnowledgeError::Read { path, .. } => {
                push_str(&mut s, "could not read knowledge file at ");
                push_quoted(&mut s, path.as_str());
            },
            KnowledgeError::NameMismatch { kind, requested, declared } => {
                push_str(&mut s, kind_str(*kind));
                push_str(&mut s, " requested as ");
                push_quoted(&mut s, requested.as_str());
                push_str(&mut s, " but the file declares ");
                push_quoted(&mut s, declared.as_str());
            },
            KnowledgeError::Parse { kind, message } => {
                push_str(&mut s, "failed to parse ");
                push_str(&mut s, kind_str(*kind));
                push_str(&mut s, ": ");
                push_str(&mut s, message.as_str());
            },
        }
        s
    }
}

/// The placeholder search path of a knowledge base with no roots.
pub open spec fn no_knowledge() -> Seq<char> {
    "<no knowledge configured>"@
}

/// Agent instructions read from a root: where from, and the text.
#[derive(Debug, Clone, PartialEq, Eq)]
pub struct AgentsDoc {
    pub source: String,
    pub body: String,
}

/// A knowledge base with nothing in it.
pub struct EmptyKnowledgeBase;

impl EmptyKnowledgeBase {
    /// Every skill is missing.
    pub fn skill(&self, name: &SkillName) -> (r: Result<Skill, KnowledgeError>)
        ensures
            r matches Err(KnowledgeError::Missing { kind, name: n, search_paths }) && kind == KnowledgeKind::Skill
                && n@ == name@ && search_paths@.len() == 1 && search_paths@[0]@ == no_knowledge(),
    {
        let mut paths: Vec<String> = Vec::new();
        paths.push("<no knowledge configured>".to_owned());
        Err(KnowledgeError::Missing { kind: KnowledgeKind::Skill, name: name.as_str().to_owned(), search_paths: paths })
    }

    /// Every workflow is missing.
    pub fn workflow(&self, name: &WorkflowName) -> (r: Result<Workflow, KnowledgeError>)
        ensures
            r matches Err(KnowledgeError::Missing { kind, name: n, search_paths }) && kind == KnowledgeKind::Workflow
                && n@ == name@ && search_paths@.len() == 1 && search_paths@[0]@ == no_knowledge(),
    {
        let mut paths: Vec<String> = Vec::new();
        paths.push("<no knowledge configured>".to_owned());
        Err(KnowledgeError::Missing { kind: KnowledgeKind::Workflow, name: name.as_str().to_owned(), search_paths: paths })
    }

    /// There are no agent instructions.
    pub fn agents(&self) -> (r: Result<Vec<AgentsDoc>, KnowledgeError>)
        ensures
            r matches Ok(v) && v@.len() == 0,
    {
        Ok(Vec::new())
    }

    /// Nothing matches a search.
    pub fn search(&self, query: &str) -> (r: Result<Vec<(KnowledgeKind, String)>, KnowledgeError>)
        ensures
            r matches Ok(v) && v@.len() == 0,
    {
        Ok(Vec::new())
    }
}

/// A loaded workflow and where it was read from.
#[derive(Debug, Clone)]
pub struct LoadedWorkflow {
    pub workflow: Workflow,
    pub source: String,
}

/// The skills, workflows and agent instructions of the knowledge roots.
/// Skills and workflows are keyed by name; the first one loaded under a
/// name is kept.
pub struct KnowledgeIndex {
    roots: Vec<String>,
    skills: Vec<Skill>,
    workflows: Vec<(String, LoadedWorkflow)>,
    agents: Vec<AgentsDoc>,
}

/// The names of the skills, in load order.
pub open spec fn skill_names(skills: Seq<Skill>) -> Seq<Seq<char>> {
    skills.map_values(|s: Skill| s.name@)
}

/// The names of the workflows, in load order.
pub open spec fn workflow_names(w: Seq<(String, LoadedWorkflow)>) -> Seq<Seq<char>> {
    w.map_values(|e: (String, LoadedWorkflow)| e.0@)
}

/// Whether no name occurs twice.
pub open spec fn distinct(names: Seq<Seq<char>>) -> bool {
    forall|i: int, j: int| 0 <= i < j < names.len() ==> names[i] != names[j]
}

impl KnowledgeIndex {
    /// The display forms of the roots searched.
    pub closed spec fn roots_view(&self) -> Seq<Seq<char>> {
        crate::bash::strings_view(self.roots@)
    }

    /// The names of the loaded skills, in load order.
    pub closed spec fn skills_view(&self) -> Seq<Seq<char>> {
        skill_names(self.skills@)
    }

    /// The loaded skills, in load order.
    pub closed spec fn skill_list(&self) -> Seq<Skill> {
        self.skills@
    }

    /// The loaded workflows, in load order.
    pub closed spec fn workflow_list(&self) -> Seq<Workflow> {
        self.workflows@.map_values(|e: (String, LoadedWorkflow)| e.1.workflow)
    }

    /// The names of the loaded skills are the names of [`Self::skill_list`].
    pub proof fn lemma_skill_list_names(&self)
        ensures
            self.skills_view() == skill_names(self.skill_list()),
    {
    }

    /// The names of the loaded workflows, in load order.
    pub closed spec fn workflows_view(&self) -> Seq<Seq<char>> {
        workflow_names(self.workflows@)
    }

    /// The loaded agent instructions, in load order.
    pub closed spec fn agents_view(&self) -> Seq<AgentsDoc> {
        self.agents@
    }

    /// The index is keyed: no skill name and no workflow name twice, and
    /// each workflow is filed under the name it declares.
    #[verifier::type_invariant]
    spec fn wf(&self) -> bool {
        &&& distinct(self.skills_view())
        &&& distinct(self.workflows_view())
        &&& forall|i: int| 0 <= i < self.workflows@.len() ==> #[trigger] self.workflows@[i].0@ == self.workflows@[i].1.workflow.name@
    }

    /// An empty index over the roots (given by their display form).
    pub fn new(roots: Vec<String>) -> (r: Self)
        ensures
            r.roots_view() == crate::bash::strings_view(roots@),
            r.skills_view().len() == 0,
            r.workflows_view().len() == 0,
            r.agents_view().len() == 0,
    {
        KnowledgeIndex { roots, skills: Vec::new(), workflows: Vec::new(), agents: Vec::new() }
    }

    fn skill_index(&self, name: &str) -> (r: Option<usize>)
        ensures
            match r {
                Some(i) => i < self.skills@.len() && self.skills_view()[i as int] == name@,
                None => !self.skills_view().contains(name@),
            },
    {
        let mut i: usize = 0;
        while i < self.skills.len()
            invariant
                i <= self.skills@.len(),
                forall|j: int| 0 <= j < i ==> self.skills_view()[j] != name@,
            decreases self.skills.len() - i,
        {
            assert(self.skills_view()[i as int] == self.skills@[i as int].name@);
            if str_eq(self.skills[i].name().as_str(), name) {
                return Some(i);
            }
            i += 1;
        }
        None
    }

    /// The loaded skills, in load order.
    pub fn skills(&self) -> (r: &Vec<Skill>)
        ensures
            r@ == self.skill_list(),
    {
        &self.skills
    }

    /// Whether a skill named `name` is loaded.
    pub fn has_skill(&self, name: &SkillName) -> (r: bool)
        ensures
            r == self.skills_view().contains(name@),
    {
        self.skill_index(name.as_str()).is_some()
    }

    /// Loads `skill` unless a skill of its name is loaded already.
    pub fn add_skill(&mut self, skill: Skill)
        ensures
            final(self).skills_view() == if old(self).skills_view().contains(skill.name@) {
                old(self).skills_view()
            } else {
                old(self).skills_view().push(skill.name@)
            },
            final(self).skill_list() == if old(self).skills_view().contains(skill.name@) {
                old(self).skill_list()
            } else {
                old(self).skill_list().push(skill)
            },
            final(self).workflows_view() == old(self).workflows_view(),
            final(self).workflow_list() == old(self).workflow_list(),
            final(self).agents_view() == old(self).agents_view(),
            final(self).roots_view() == old(self).roots_view(),
    {
        proof {
            use_type_invariant(&*self);
        }
        let ghost sn = skill.name@;
        if self.skill_index(skill.name().as_str()).is_some() {
            return;
        }
        let ghost before = self.skills@;
        let mut skills: Vec<Skill> = Vec::new();
        std::mem::swap(&mut skills, &mut self.skills);
        skills.push(skill);
        proof {
            assert(skill_names(skills@) =~= skill_names(before).push(sn));
            assert forall|i: int, j: int| 0 <= i < j < skill_names(skills@).len() implies skill_names(skills@)[i]
                != skill_names(skills@)[j] by {
                if j == before.len() {
                    assert(skill_names(before)[i] == skill_names(skills@)[i]);
                    assert(skill_names(before).contains(skill_names(before)[i]));
                }
            }
        }
        self.skills = skills;
    }

    fn workflow_index(&self, name: &str) -> (r: Option<usize>)
        ensures
            match r {
                Some(i) => i < self.workflows@.len() && self.workflows_view()[i as int] == name@,
                None => !self.workflows_view().contains(name@),
            },
    {
        let mut i: usize = 0;
        while i < self.workflows.len()
            invariant
                i <= self.workflows@.len(),
                forall|j: int| 0 <= j < i ==> self.workflows_view()[j] != name@,
            decreases self.workflows.len() - i,
        {
            assert(self.workflows_view()[i as int] == self.workflows@[i as int].0@);
            if str_eq(self.workflows[i].0.as_str(), name) {
                return Some(i);
            }
            i += 1;
        }
        None
    }

    /// Loads `workflow`, read from `source`, under the name it declares,
    /// unless a workflow of that name is loaded already.
    pub fn add_workflow(&mut self, workflow: Workflow, source: String)
        ensures
            final(self).workflows_view() == if old(self).workflows_view().contains(workflow.name@) {
                old(self).workflows_view()
            } else {
                old(self).workflows_view().push(workflow.name@)
            },
            final(self).workflow_list() == if old(self).workflows_view().contains(workflow.name@) {
                old(self).workflow_list()
            } else {
                old(self).workflow_list().push(workflow)
            },
            final(self).skills_view() == old(self).skills_view(),
            final(self).skill_list() == old(self).skill_list(),
            final(self).agents_view() == old(self).agents_view(),
            final(self).roots_view() == old(self).roots_view(),
    {
        proof {
            use_type_invariant(&*self);
        }
        let ghost wn = workflow.name@;
        if self.workflow_index(workflow.name.as_str()).is_some() {
            return;
        }
        let name = workflow.name.clone();
        let ghost before = self.workflows@;
        let mut workflows: Vec<(String, LoadedWorkflow)> = Vec::new();
        std::mem::swap(&mut workflows, &mut self.workflows);
        workflows.push((name, LoadedWorkflow { workflow, source }));
        proof {
            assert(workflow_names(workflows@) =~= workflow_names(before).push(wn));
            assert(workflows@[before.len() as int].0@ == wn);
            assert forall|i: int, j: int| 0 <= i < j < workflow_names(workflows@).len() implies workflow_names(
                workflows@,
            )[i] != workflow_names(workflows@)[j] by {
                if j == before.len() {
                    assert(workflow_names(before)[i] == workflow_names(workflows@)[i]);
                    assert(workflow_names(before).contains(workflow_names(before)[i]));
                }
            }
            assert forall|i: int| 0 <= i < workflows@.len() implies #[trigger] workflows@[i].0@
                == workflows@[i].1.workflow.name@ by {
                if i < before.len() {
                    assert(workflows@[i] == before[i]);
                }
            }
        }
        self.workflows = workflows;
    }

    /// Adds the agent instructions of a root.
    pub fn add_agents(&mut self, doc: AgentsDoc)
        ensures
            final(self).agents_view() == old(self).agents_view().push(doc),
            final(self).skills_view() == old(self).skills_view(),
            final(self).workflows_view() == old(self).workflows_view(),
            final(self).roots_view() == old(self).roots_view(),
    {
        proof {
            use_type_invariant(&*self);
        }
        let mut agents: Vec<AgentsDoc> = Vec::new();
        std::mem::swap(&mut agents, &mut self.agents);
        agents.push(doc);
        self.agents = agents;
    }

    fn missing(&self, kind: KnowledgeKind, name: &str) -> (r: KnowledgeError)
        ensures
            r matches KnowledgeError::Missing { kind: k, name: n, search_paths } && k == kind && n@ == name@
                && crate::bash::strings_view(search_paths@) == self.roots_view(),
    {
        let mut paths: Vec<String> = Vec::new();
        let mut i: usize = 0;
        while i < self.roots.len()
            invariant
                i <= self.roots@.len(),
                crate::bash::strings_view(paths@) == crate::bash::strings_view(self.roots@.take(i as int)),
            decreases self.roots.len() - i,
        {
            let ghost before = paths@;
            let p = self.roots[i].as_str().to_owned();
            assert(p@ == self.roots@[i as int]@);
            paths.push(p);
            proof {
                assert(paths@ == before.push(p));
                assert(crate::bash::strings_view(paths@) =~= crate::bash::strings_view(before).push(p@));
                assert(self.roots@.take(i + 1) =~= self.roots@.take(i as int).push(self.roots@[i as int]));
                assert(crate::bash::strings_view(self.roots@.take(i + 1)) =~= crate::bash::strings_view(
                    self.roots@.take(i as int),
                ).push(self.roots@[i as int]@));
            }
            i += 1;
        }
        assert(self.roots@.take(self.roots@.len() as int) =~= self.roots@);
        KnowledgeError::Missing { kind, name: name.to_owned(), search_paths: paths }
    }

    /// The loaded skill named `name`, or `Missing` with the roots searched.
    pub fn skill(&self, name: &SkillName) -> (r: Result<&Skill, KnowledgeError>)
        ensures
            match r {
                Ok(s) => s.name@ == name@ && self.skills_view().contains(name@) && self.skill_list().contains(*s),
                Err(e) => {
                    &&& !self.skills_view().contains(name@)
                    &&& e matches KnowledgeError::Missing { kind, name: n, search_paths }
                    &&& kind == KnowledgeKind::Skill
                    &&& n@ == name@
                    &&& crate::bash::strings_view(search_paths@) == self.roots_view()
                },
            },
    {
        match self.skill_index(name.as_str()) {
            Some(i) => {
                assert(self.skills_view()[i as int] == self.skills@[i as int].name@);
                Ok(&self.skills[i])
            },
            None => Err(self.missing(KnowledgeKind::Skill, name.as_str())),
        }
    }

    /// The loaded workflow named `name`, or `Missing` with the roots searched.
    pub fn workflow(&self, name: &WorkflowName) -> (r: Result<&Workflow, KnowledgeError>)
        ensures
            match r {
                Ok(w) => w.name@ == name@ && self.workflows_view().contains(name@) && self.workflow_list().contains(*w),
                Err(e) => {
                    &&& !self.workflows_view().contains(name@)
                    &&& e matches KnowledgeError::Missing { kind, name: n, search_paths }
                    &&& kind == KnowledgeKind::Workflow
                    &&& n@ == name@
                    &&& crate::bash::strings_view(search_paths@) == self.roots_view()
                },
            },
    {
        proof {
            use_type_invariant(self);
        }
        match self.workflow_index(name.as_str()) {
            Some(i) => {
                assert(self.workflows_view()[i as int] == self.workflows@[i as int].0@);
                assert(self.workflow_list()[i as int] == self.workflows@[i as int].1.workflow);
                Ok(&self.workflows[i].1.workflow)
            },
            None => Err(self.missing(KnowledgeKind::Workflow, name.as_str())),
        }
    }
}


/// The order rank of a hit's kind: skills before workflows.
pub open spec fn kind_rank(k: KnowledgeKind) -> nat {
    match k {
        KnowledgeKind::Skill => 0,
        KnowledgeKind::Workflow => 1,
        KnowledgeKind::Any => 2,
        KnowledgeKind::Agents => 3,
    }
}

/// The order of search hits: by name, then skills before workflows.
pub open spec fn hit_lt(a: (KnowledgeKind, Seq<char>), b: (KnowledgeKind, Seq<char>)) -> bool {
    seq_lt(a.1, b.1) || (a.1 == b.1 && kind_rank(a.0) < kind_rank(b.0))
}

proof fn lemma_hit_lt_trans(a: (KnowledgeKind, Seq<char>), b: (KnowledgeKind, Seq<char>), c: (KnowledgeKind, Seq<char>))
    requires
        hit_lt(a, b),
        hit_lt(b, c),
    ensures
        hit_lt(a, c),
{
    if seq_lt(a.1, b.1) && seq_lt(b.1, c.1) {
        crate::text::lemma_seq_lt_trans(a.1, b.1, c.1);
    }
}

proof fn lemma_hit_lt_total(a: (KnowledgeKind, Seq<char>), b: (KnowledgeKind, Seq<char>))
    ensures
        !hit_lt(a, a),
        !(hit_lt(a, b) && hit_lt(b, a)),
        (a.1 != b.1 || kind_rank(a.0) != kind_rank(b.0)) ==> (hit_lt(a, b) || hit_lt(b, a)),
{
    crate::text::lemma_seq_lt_total(a.1, b.1);
    crate::text::lemma_seq_lt_total(a.1, a.1);
}

/// The view of the hits.
pub open spec fn hits_view(v: Seq<(KnowledgeKind, String)>) -> Seq<(KnowledgeKind, Seq<char>)> {
    v.map_values(|h: (KnowledgeKind, String)| (h.0, h.1@))
}

/// Whether `hits` are the skills and workflows whose names contain
/// `query`, sorted by [`hit_lt`], each once.
pub open spec fn search_ok(hits: Seq<(KnowledgeKind, Seq<char>)>, skills: Seq<Seq<char>>, workflows: Seq<Seq<char>>, query: Seq<char>) -> bool {
    &&& forall|i: int, j: int| 0 <= i < j < hits.len() ==> hit_lt(hits[i], hits[j])
    &&& forall|h: (KnowledgeKind, Seq<char>)| hits.contains(h) <==> (contains_seq(h.1, query) && (
        (h.0 == KnowledgeKind::Skill && skills.contains(h.1)) || (h.0 == KnowledgeKind::Workflow && workflows.contains(h.1))))
}

fn insert_hit(hits: &mut Vec<(KnowledgeKind, String)>, kind: KnowledgeKind, name: &str)
    requires
        kind == KnowledgeKind::Skill || kind == KnowledgeKind::Workflow,
        forall|i: int, j: int| 0 <= i < j < hits_view(old(hits)@).len() ==> hit_lt(hits_view(old(hits)@)[i], hits_view(old(hits)@)[j]),
        !hits_view(old(hits)@).contains((kind, name@)),
    ensures
        forall|i: int, j: int| 0 <= i < j < hits_view(final(hits)@).len() ==> hit_lt(hits_view(final(hits)@)[i], hits_view(final(hits)@)[j]),
        forall|h: (KnowledgeKind, Seq<char>)| hits_view(final(hits)@).contains(h) <==> (hits_view(old(hits)@).contains(h) || h == (kind, name@)),
{
    let ghost old_v = hits_view(hits@);
    let ghost item = (kind, name@);
    let rank: u8 = match kind { KnowledgeKind::Skill => 0, _ => 1 };
    let mut i: usize = 0;
    while i < hits.len()
        invariant
            i <= hits@.len(),
            old_v == hits_view(hits@),
            hits@ == old(hits)@,
            item == (kind, name@),
            rank as nat == kind_rank(kind),
            forall|a: int, b: int| 0 <= a < b < old_v.len() ==> hit_lt(old_v[a], old_v[b]),
            forall|a: int| 0 <= a < i ==> hit_lt(old_v[a], item),
            !old_v.contains(item),
            kind == KnowledgeKind::Skill || kind == KnowledgeKind::Workflow,
        decreases hits.len() - i,
    {
        let other_rank: u8 = match hits[i].0 { KnowledgeKind::Skill => 0, KnowledgeKind::Workflow => 1, KnowledgeKind::Any => 2, KnowledgeKind::Agents => 3 };
        assert(old_v[i as int] == (hits@[i as int].0, hits@[i as int].1@));
        let before = str_lt(name, hits[i].1.as_str()) || (str_eq(name, hits[i].1.as_str()) && rank < other_rank);
        if before {
            proof {
                assert(hit_lt(item, old_v[i as int]));
            }
            let ghost b4 = hits@;
            hits.insert(i, (kind, name.to_owned()));
            proof {
                let nv = hits_view(hits@);
                assert(nv =~= old_v.insert(i as int, item));
                assert forall|a: int, b: int| 0 <= a < b < nv.len() implies hit_lt(nv[a], nv[b]) by {
                    if b < i {
                        assert(nv[a] == old_v[a] && nv[b] == old_v[b]);
                    } else if a > i {
                        assert(nv[a] == old_v[a - 1] && nv[b] == old_v[b - 1]);
                    } else if a == i {
                        assert(nv[b] == old_v[b - 1]);
                        if b - 1 > i {
                            lemma_hit_lt_trans(item, old_v[i as int], old_v[b - 1]);
                        }
                    } else {
                        assert(nv[a] == old_v[a]);
                        if b != i {
                            assert(nv[b] == old_v[b - 1]);
                            lemma_hit_lt_trans(old_v[a], item, old_v[i as int]);
                            if b - 1 > i {
                                lemma_hit_lt_trans(old_v[a], old_v[i as int], old_v[b - 1]);
                            }
                        }
                    }
                }
                assert forall|h: (KnowledgeKind, Seq<char>)| nv.contains(h) <==> (old_v.contains(h) || h == item) by {
                    if nv.contains(h) {
                        let q = choose|q: int| 0 <= q < nv.len() && nv[q] == h;
                        if q < i {
                            assert(old_v[q] == h);
                        } else if q > i {
                            assert(old_v[q - 1] == h);
                        }
                    }
                    if old_v.contains(h) {
                        let q = choose|q: int| 0 <= q < old_v.len() && old_v[q] == h;
                        if q < i {
                            assert(nv[q] == h);
                        } else {
                            assert(nv[q + 1] == h);
                        }
                    }
                    if h == item {
                        assert(nv[i as int] == h);
                    }
                }
            }
            return;
        }
        proof {
            assert(other_rank as nat == kind_rank(old_v[i as int].0));
            assert(!hit_lt(item, old_v[i as int]));
            lemma_hit_lt_total(old_v[i as int], item);
            if old_v[i as int] == item {
                assert(old_v.contains(item));
            }
            if old_v[i as int].1 == item.1 && kind_rank(old_v[i as int].0) == kind_rank(item.0) {
                assert(old_v[i as int].0 == item.0);
            }
        }
        i += 1;
    }
    let ghost b4 = hits@;
    hits.push((kind, name.to_owned()));
    proof {
        let nv = hits_view(hits@);
        assert(nv =~= old_v.push(item));
        assert forall|a: int, b: int| 0 <= a < b < nv.len() implies hit_lt(nv[a], nv[b]) by {
            if b == old_v.len() {
                assert(nv[a] == old_v[a]);
            } else {
                assert(nv[a] == old_v[a] && nv[b] == old_v[b]);
            }
        }
        assert forall|h: (KnowledgeKind, Seq<char>)| nv.contains(h) <==> (old_v.contains(h) || h == item) by {
            if nv.contains(h) {
                let q = choose|q: int| 0 <= q < nv.len() && nv[q] == h;
                if q < old_v.len() {
                    assert(old_v[q] == h);
                }
            }
            if old_v.contains(h) {
                let q = choose|q: int| 0 <= q < old_v.len() && old_v[q] == h;
                assert(nv[q] == h);
            }
            if h == item {
                assert(nv[old_v.len() as int] == h);
            }
        }
    }
}

impl KnowledgeIndex {
    /// The skills and workflows whose names contain `query`, sorted by
    /// name, skills before workflows of the same name.
    pub fn search(&self, query: &str) -> (r: Result<Vec<(KnowledgeKind, String)>, KnowledgeError>)
        ensures
            r matches Ok(hits) && search_ok(hits_view(hits@), self.skills_view(), self.workflows_view(), query@),
    {
        proof {
            use_type_invariant(self);
        }
        let q = chars_of(query);
        let mut hits: Vec<(KnowledgeKind, String)> = Vec::new();
        let mut i: usize = 0;
        while i < self.skills.len()
            invariant
                i <= self.skills@.len(),
                self.wf(),
                q@ == query@,
                forall|a: int, b: int| 0 <= a < b < hits_view(hits@).len() ==> hit_lt(hits_view(hits@)[a], hits_view(hits@)[b]),
                forall|h: (KnowledgeKind, Seq<char>)| hits_view(hits@).contains(h) <==> (contains_seq(h.1, query@)
                    && h.0 == KnowledgeKind::Skill && self.skills_view().take(i as int).contains(h.1)),
            decreases self.skills.len() - i,
        {
            let name = self.skills[i].name().as_str();
            assert(self.skills_view()[i as int] == name@);
            let v = chars_of(name);
            let ghost before = hits_view(hits@);
            proof {
                assert(self.skills_view().take(i + 1) =~= self.skills_view().take(i as int).push(name@));
                let prev = self.skills_view().take(i as int);
                if prev.contains(name@) {
                    let j = choose|j: int| 0 <= j < prev.len() && prev[j] == name@;
                    assert(self.skills_view()[j] == self.skills_view()[i as int]);
                }
            }
            if find_chars(v.as_slice(), q.as_slice()).is_some() {
                insert_hit(&mut hits, KnowledgeKind::Skill, name);
            }
            proof {
                let cur = self.skills_view().take(i + 1);
                let prev = self.skills_view().take(i as int);
                assert(cur =~= prev.push(name@));
                assert forall|h: (KnowledgeKind, Seq<char>)| hits_view(hits@).contains(h) <==> (contains_seq(h.1, query@)
                    && h.0 == KnowledgeKind::Skill && cur.contains(h.1)) by {
                    if cur.contains(h.1) && h.1 != name@ {
                        let j = choose|j: int| 0 <= j < cur.len() && cur[j] == h.1;
                        assert(prev[j] == h.1);
                    }
                    if prev.contains(h.1) {
                        let j = choose|j: int| 0 <= j < prev.len() && prev[j] == h.1;
                        assert(cur[j] == h.1);
                    }
                    if h.1 == name@ {
                        assert(cur[i as int] == h.1);
                    }
                }
            }
            i += 1;
        }
        assert(self.skills_view().take(self.skills_view().len() as int) =~= self.skills_view());
        let mut k: usize = 0;
        while k < self.workflows.len()
            invariant
                k <= self.workflows@.len(),
                self.wf(),
                q@ == query@,
                forall|a: int, b: int| 0 <= a < b < hits_view(hits@).len() ==> hit_lt(hits_view(hits@)[a], hits_view(hits@)[b]),
                forall|h: (KnowledgeKind, Seq<char>)| hits_view(hits@).contains(h) <==> (contains_seq(h.1, query@) && (
                    (h.0 == KnowledgeKind::Skill && self.skills_view().contains(h.1)) || (h.0 == KnowledgeKind::Workflow
                        && self.workflows_view().take(k as int).contains(h.1)))),
            decreases self.workflows.len() - k,
        {
            let name = self.workflows[k].0.as_str();
            assert(self.workflows_view()[k as int] == name@);
            let v = chars_of(name);
            proof {
                assert(self.workflows_view().take(k + 1) =~= self.workflows_view().take(k as int).push(name@));
                let prev = self.workflows_view().take(k as int);
                if prev.contains(name@) {
                    let j = choose|j: int| 0 <= j < prev.len() && prev[j] == name@;
                    assert(self.workflows_view()[j] == self.workflows_view()[k as int]);
                }
            }
            if find_chars(v.as_slice(), q.as_slice()).is_some() {
                insert_hit(&mut hits, KnowledgeKind::Workflow, name);
            }
            proof {
                let cur = self.workflows_view().take(k + 1);
                let prev = self.workflows_view().take(k as int);
                assert(cur =~= prev.push(name@));
                assert forall|h: (KnowledgeKind, Seq<char>)| hits_view(hits@).contains(h) <==> (contains_seq(h.1, query@) && (
                    (h.0 == KnowledgeKind::Skill && self.skills_view().contains(h.1)) || (h.0 == KnowledgeKind::Workflow
                        && cur.contains(h.1)))) by {
                    if cur.contains(h.1) && h.1 != name@ {
                        let j = choose|j: int| 0 <= j < cur.len() && cur[j] == h.1;
                        assert(prev[j] == h.1);
                    }
                    if prev.contains(h.1) {
                        let j = choose|j: int| 0 <= j < prev.len() && prev[j] == h.1;
                        assert(cur[j] == h.1);
                    }
                    if h.1 == name@ {
                        assert(cur[k as int] == h.1);
                    }
                }
            }
            k += 1;
        }
        assert(self.workflows_view().take(self.workflows_view().len() as int) =~= self.workflows_view());
        Ok(hits)
    }
}

} // verus!
