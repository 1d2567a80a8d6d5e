use ailly::skills::{split_frontmatter, Skill, SkillDescription, SkillError, SkillFrontmatter, SkillName, SkillSource};

fn dummy_source() -> SkillSource {
    SkillSource("/x/SKILL.md".to_string())
}

/// Reads a frontmatter field as a string, as the YAML document holds it.
fn field(doc: &serde_yml::Value, key: &str) -> Option<String> {
    doc.get(key).and_then(serde_yml::Value::as_str).map(str::to_string)
}

/// A `SKILL.md` parsed end to end: fences split, YAML read, fields checked.
fn parse(raw: &str, expected: &SkillName) -> Result<Skill, SkillError> {
    let (yaml, body) = split_frontmatter(raw, expected)?;
    let frontmatter = serde_yml::from_str::<serde_yml::Value>(&yaml)
        .map(|doc| SkillFrontmatter { name: field(&doc, "name"), description: field(&doc, "description") })
        .map_err(|e| e.to_string());
    Skill::from_frontmatter(dummy_source(), frontmatter, &body, expected)
}

#[test]
fn skill_name_accepts_lowercase_alphanumeric_dash() {
    let n = SkillName::try_from("foo-bar-2").unwrap();
    assert_eq!(n.as_str(), "foo-bar-2");
}

#[test]
fn skill_name_rejects_uppercase() {
    let err = SkillName::try_from("Foo").unwrap_err();
    assert!(matches!(err, SkillError::InvalidName { .. }), "expected InvalidName, got {err:?}");
}

#[test]
fn skill_name_rejects_empty() {
    let err = SkillName::try_from("").unwrap_err();
    assert!(matches!(err, SkillError::InvalidName { .. }));
}

#[test]
fn skill_name_rejects_over_64_chars() {
    let raw = "a".repeat(65);
    let err = SkillName::try_from(&raw).unwrap_err();
    assert!(matches!(err, SkillError::InvalidName { .. }));
}

#[test]
fn skill_description_rejects_empty() {
    let err = SkillDescription::try_from("").unwrap_err();
    assert!(matches!(err, SkillError::InvalidDescription { .. }));
}

#[test]
fn skill_description_rejects_over_1024_chars() {
    let raw = "a".repeat(1025);
    let err = SkillDescription::try_from(&raw).unwrap_err();
    assert!(matches!(err, SkillError::InvalidDescription { .. }));
}

#[test]
fn skill_name_accepts_exactly_64_chars() {
    let raw = "a".repeat(64);
    assert_eq!(SkillName::try_from(&raw).unwrap().as_str(), raw);
}

#[test]
fn skill_name_accepts_plugin_namespaced_names() {
    assert_eq!(SkillName::try_from("dev:design").unwrap().as_str(), "dev:design");
    assert_eq!(SkillName::try_from("patterns:newtype").unwrap().as_str(), "patterns:newtype");
}

#[test]
fn skill_name_rejects_empty_segments() {
    for raw in [":design", "dev:", "dev::design", ":"] {
        assert!(matches!(SkillName::try_from(raw), Err(SkillError::InvalidName { .. })), "{raw}");
    }
    assert!(matches!(SkillName::try_from("Dev:design"), Err(SkillError::InvalidName { .. })));
}

#[test]
fn parse_strips_frontmatter_and_returns_body() {
    let expected = SkillName::try_from("foo").unwrap();
    let raw = "---\nname: foo\ndescription: a foo skill\n---\nFOO BODY\n";
    let skill = parse(raw, &expected).unwrap();
    assert_eq!(skill.name().as_str(), "foo");
    assert_eq!(skill.description().as_str(), "a foo skill");
    assert_eq!(skill.body().as_str(), "FOO BODY");
}

#[test]
fn parse_rejects_missing_name_field() {
    let expected = SkillName::try_from("foo").unwrap();
    let raw = "---\ndescription: only desc\n---\nbody\n";
    let err = parse(raw, &expected).unwrap_err();
    assert!(
        matches!(err, SkillError::FrontmatterMissing { field: "name", .. }),
        "expected FrontmatterMissing(name), got {err:?}"
    );
}

#[test]
fn parse_rejects_missing_description_field() {
    let expected = SkillName::try_from("foo").unwrap();
    let raw = "---\nname: foo\n---\nbody\n";
    let err = parse(raw, &expected).unwrap_err();
    assert!(
        matches!(err, SkillError::FrontmatterMissing { field: "description", .. }),
        "expected FrontmatterMissing(description), got {err:?}"
    );
}

#[test]
fn parse_rejects_name_mismatch_with_directory() {
    let expected = SkillName::try_from("foo").unwrap();
    let raw = "---\nname: bar\ndescription: x\n---\nbody\n";
    let err = parse(raw, &expected).unwrap_err();
    assert!(matches!(err, SkillError::NameMismatch { .. }), "expected NameMismatch, got {err:?}");
}

#[test]
fn parse_rejects_invalid_yaml() {
    let expected = SkillName::try_from("foo").unwrap();
    let raw = "---\nname: foo\n  description: : :\n---\nbody\n";
    let err = parse(raw, &expected).unwrap_err();
    assert!(matches!(err, SkillError::FrontmatterParse { .. }), "expected FrontmatterParse, got {err:?}");
}

#[test]
fn parse_rejects_missing_open_fence() {
    let expected = SkillName::try_from("foo").unwrap();
    let raw = "name: foo\ndescription: x\nbody\n";
    let err = parse(raw, &expected).unwrap_err();
    assert!(
        matches!(err, SkillError::FrontmatterMissing { field: "---", .. }),
        "expected FrontmatterMissing(---), got {err:?}"
    );
}
