use ailly::knowledge::WorkflowName;
use ailly::project::{list_skill_rows, list_workflow_rows, sorted_names, SkillEntry, ToolEntry, WorkflowEntry};

fn wf(name: &str, source: &str) -> WorkflowEntry {
    WorkflowEntry::new(WorkflowName::new(name), format!("{name} workflow"), String::from(source))
}

fn skill(name: &str) -> SkillEntry {
    SkillEntry {
        name: String::from(name),
        description: format!("{name} skill"),
        source_path: format!("skills/{name}/SKILL.md"),
    }
}

#[test]
fn workflow_entry_keeps_its_fields() {
    let e = wf("deploy", "workflows/deploy.toml");
    assert_eq!(e.name().as_str(), "deploy");
    assert_eq!(e.description(), "deploy workflow");
    assert_eq!(e.source_path(), "workflows/deploy.toml");
}

#[test]
fn workflow_rows_are_first_wins_then_sorted_by_name() {
    let cands = vec![
        (String::from("zeta"), Some(wf("zeta", "workflow.toml"))),
        (String::from("alpha"), Some(wf("alpha", "workflows/alpha.toml"))),
        (String::from("zeta"), Some(wf("zeta", "workflows/zeta.toml"))),
        (String::from("broken"), None),
        (String::from("mid"), Some(wf("mid", "workflows/mid.toml"))),
    ];
    let rows = list_workflow_rows(cands);
    let got: Vec<(&str, &str)> = rows.iter().map(|r| (r.name().as_str(), r.source_path())).collect();
    assert_eq!(
        got,
        vec![("alpha", "workflows/alpha.toml"), ("mid", "workflows/mid.toml"), ("zeta", "workflow.toml")]
    );
}

#[test]
fn a_candidate_that_failed_does_not_block_a_later_one_of_its_name() {
    let cands = vec![(String::from("a"), None), (String::from("a"), Some(wf("a", "workflows/a.toml")))];
    let rows = list_workflow_rows(cands);
    assert_eq!(rows.len(), 1);
    assert_eq!(rows[0].source_path(), "workflows/a.toml");
}

#[test]
fn skill_rows_dedupe_first_wins_and_sort_alphabetically() {
    let mut first_beta = skill("beta");
    first_beta.source_path = String::from("first");
    let cands = vec![
        (String::from("gamma"), Some(skill("gamma"))),
        (String::from("beta"), Some(first_beta)),
        (String::from("beta"), Some(skill("beta"))),
        (String::from("alpha"), Some(skill("alpha"))),
    ];
    let rows = list_skill_rows(cands);
    let got: Vec<(&str, &str)> = rows.iter().map(|r| (r.name.as_str(), r.source_path.as_str())).collect();
    assert_eq!(
        got,
        vec![("alpha", "skills/alpha/SKILL.md"), ("beta", "first"), ("gamma", "skills/gamma/SKILL.md")]
    );
}

#[test]
fn skill_rows_empty_when_no_candidates() {
    assert!(list_skill_rows(Vec::new()).is_empty());
}

#[test]
fn tool_names_sort_for_listing() {
    let names = vec![String::from("web.search"), String::from("bash"), String::from("fs.read")];
    assert_eq!(sorted_names(names), vec!["bash", "fs.read", "web.search"]);
    let t = ToolEntry {
        name: String::from("bash"),
        description: String::from("run a shell command"),
    };
    assert_eq!(t.name, "bash");
}
