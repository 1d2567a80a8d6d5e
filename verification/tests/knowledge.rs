use ailly::knowledge::{KnowledgeError, KnowledgeIndex, KnowledgeKind, WorkflowName};
use ailly::skills::{Skill, SkillFrontmatter, SkillName, SkillSource};
use ailly::workflow::Workflow;

fn skill(name: &str, body: &str, source: &str) -> Skill {
    let expected = SkillName::try_from(name).unwrap();
    let fm = SkillFrontmatter { name: Some(name.to_string()), description: Some("d".to_string()) };
    Skill::from_frontmatter(SkillSource(source.to_string()), Ok(fm), body, &expected).unwrap()
}

fn workflow(name: &str, start: &str) -> Workflow {
    Workflow {
        name: name.to_string(),
        description: None,
        start: start.to_string(),
        inputs: Vec::new(),
        tasks: Vec::new(),
    }
}

#[test]
fn index_skill_first_wins() {
    let mut index = KnowledgeIndex::new(vec!["/a".to_string(), "/b".to_string()]);
    index.add_skill(skill("foo", "FIRST", "/a/skills/foo/SKILL.md"));
    index.add_skill(skill("foo", "SECOND", "/b/skills/foo/SKILL.md"));
    let found = index.skill(&SkillName::try_from("foo").unwrap()).unwrap();
    assert_eq!(found.body().as_str(), "FIRST");
    assert_eq!(index.skills().len(), 1);
}

#[test]
fn index_workflow_first_wins() {
    let mut index = KnowledgeIndex::new(vec!["/a".to_string()]);
    index.add_workflow(workflow("flow", "one"), "/a/workflow.toml".to_string());
    index.add_workflow(workflow("flow", "two"), "/a/workflows/flow.toml".to_string());
    let found = index.workflow(&WorkflowName::new("flow")).unwrap();
    assert_eq!(found.start, "one");
}

#[test]
fn index_missing_skill_names_every_search_path() {
    let index = KnowledgeIndex::new(vec!["/a".to_string(), "/b".to_string()]);
    match index.skill(&SkillName::try_from("nope").unwrap()) {
        Err(KnowledgeError::Missing { kind, name, search_paths }) => {
            assert_eq!(kind, KnowledgeKind::Skill);
            assert_eq!(name, "nope");
            assert_eq!(search_paths, vec!["/a".to_string(), "/b".to_string()]);
        }
        other => panic!("expected Missing, got {other:?}"),
    }
}

#[test]
fn index_search_returns_matching_names_sorted_skills_first() {
    let mut index = KnowledgeIndex::new(vec!["/a".to_string()]);
    index.add_skill(skill("zeta-log", "z", "/a/skills/zeta-log/SKILL.md"));
    index.add_skill(skill("alpha-log", "a", "/a/skills/alpha-log/SKILL.md"));
    index.add_skill(skill("other", "o", "/a/skills/other/SKILL.md"));
    index.add_workflow(workflow("alpha-log", "s"), "/a/workflows/alpha-log.toml".to_string());
    let hits = index.search("log").unwrap();
    assert_eq!(
        hits,
        vec![
            (KnowledgeKind::Skill, "alpha-log".to_string()),
            (KnowledgeKind::Workflow, "alpha-log".to_string()),
            (KnowledgeKind::Skill, "zeta-log".to_string()),
        ]
    );
}

#[test]
fn knowledge_errors_render_like_their_debug_fields() {
    let missing = KnowledgeError::Missing {
        kind: KnowledgeKind::Skill,
        name: "nope".to_string(),
        search_paths: vec!["/a".to_string(), "/b".to_string()],
    };
    assert_eq!(missing.message(), "Skill \"nope\" not found in any of [\"/a\", \"/b\"]");
    let mismatch = KnowledgeError::NameMismatch {
        kind: KnowledgeKind::Workflow,
        requested: "a".to_string(),
        declared: "b".to_string(),
    };
    assert_eq!(mismatch.message(), "Workflow requested as \"a\" but the file declares \"b\"");
    let invalid = KnowledgeError::InvalidName {
        kind: KnowledgeKind::Skill,
        raw: "Bad".to_string(),
        reason: "uppercase".to_string(),
    };
    assert_eq!(invalid.message(), "invalid Skill name \"Bad\": uppercase");
    let read = KnowledgeError::Read { path: "/a/x.toml".to_string(), message: "gone".to_string() };
    assert_eq!(read.message(), "could not read knowledge file at \"/a/x.toml\"");
    let parse = KnowledgeError::Parse { kind: KnowledgeKind::Workflow, message: "bad toml".to_string() };
    assert_eq!(parse.message(), "failed to parse Workflow: bad toml");
}

#[test]
fn names_render_as_their_text() {
    assert_eq!(WorkflowName::from("flow".to_string()).as_str(), "flow");
    assert_eq!(WorkflowName::new("flow").to_string(), "flow");
    assert_eq!(SkillName::try_from("dev:design").unwrap().to_string(), "dev:design");
}
