use ailly::enrichment::{grep_candidates, is_stop_word, source_path_of, tokenize, EnrichmentOrigin, SourcePath};
use ailly::namespace::{merge_passes, namespace_pass, plugin};
use ailly::skills::SkillName;

fn strings(v: &[&str]) -> Vec<String> {
    v.iter().map(|s| String::from(*s)).collect()
}

fn names_of(v: &[String]) -> Vec<&str> {
    v.iter().map(String::as_str).collect()
}

#[test]
fn namespace_pass_includes_same_plugin_siblings_alphabetically() {
    let kb = strings(&["dev:design", "dev:thinking", "dev:using-dev", "other:elsewhere"]);
    let declared = strings(&["dev:design"]);
    let result = namespace_pass(&declared, &kb);
    let names = names_of(&result);
    assert!(names.contains(&"dev:thinking"));
    assert!(names.contains(&"dev:using-dev"));
    assert!(!names.contains(&"other:elsewhere"));
    assert!(!names.contains(&"dev:design"));
    let dev_only: Vec<&str> = names.iter().copied().filter(|n| n.starts_with("dev:")).collect();
    let mut sorted = dev_only.clone();
    sorted.sort();
    assert_eq!(dev_only, sorted);
}

#[test]
fn namespace_pass_includes_bootstrap_allow_list_when_present() {
    let kb = strings(&[
        "dev:design",
        "general:using-general",
        "patterns:using-patterns",
        "characters:using-characters",
    ]);
    let declared = strings(&["dev:design"]);
    let result = namespace_pass(&declared, &kb);
    let names = names_of(&result);
    assert!(names.contains(&"general:using-general"));
    assert!(names.contains(&"patterns:using-patterns"));
    assert!(names.contains(&"characters:using-characters"));
}

#[test]
fn namespace_pass_skips_bootstrap_entries_missing_from_kb() {
    let kb = strings(&["dev:design", "general:using-general"]);
    let declared = strings(&["dev:design"]);
    let result = namespace_pass(&declared, &kb);
    let names = names_of(&result);
    assert!(names.contains(&"general:using-general"));
    assert!(!names.contains(&"patterns:using-patterns"));
    assert!(!names.contains(&"characters:using-characters"));
}

#[test]
fn namespace_pass_orders_plugins_then_bootstrap_and_never_repeats() {
    let kb = strings(&["zeta:b", "alpha:z", "alpha:a", "general:using-general", "zeta:a", "alpha:a"]);
    let declared = strings(&["zeta:a", "alpha:m", "general:using-general"]);
    let result = namespace_pass(&declared, &kb);
    assert_eq!(names_of(&result), vec!["alpha:a", "alpha:z", "zeta:b"]);
}

#[test]
fn plugin_is_the_text_before_the_first_colon() {
    assert_eq!(plugin("dev:design:x"), Some(String::from("dev")));
    assert_eq!(plugin("plain"), None);
    assert_eq!(plugin(":x"), Some(String::new()));
}

#[test]
fn composite_returns_declared_first_in_declared_order() {
    let declared = strings(&["dev:thinking", "dev:design"]);
    for n in &declared {
        assert_eq!(SkillName::try_from(n).unwrap().as_str(), n);
    }
    let kb = strings(&["dev:design", "dev:thinking"]);
    let ns = namespace_pass(&declared, &kb);
    let result = merge_passes(&declared, &ns, &Vec::new());
    let head: Vec<&str> = result.iter().take(2).map(|e| e.0.as_str()).collect();
    assert_eq!(head, vec!["dev:thinking", "dev:design"]);
    assert!(result[..2].iter().all(|e| e.1 == EnrichmentOrigin::Declared));
}

#[test]
fn merge_keeps_the_strongest_origin_of_each_name() {
    let declared = strings(&["a", "b", "a"]);
    let ns = strings(&["b", "c"]);
    let grep = strings(&["c", "d", "a"]);
    let result = merge_passes(&declared, &ns, &grep);
    let got: Vec<(&str, &str)> = result.iter().map(|(n, o)| (n.as_str(), o.as_str())).collect();
    assert_eq!(got, vec![("a", "declared"), ("b", "declared"), ("c", "namespace"), ("d", "grep")]);
}

#[test]
fn composite_is_deterministic_across_invocations() {
    let declared = strings(&["dev:design"]);
    let kb = strings(&["dev:design", "dev:thinking", "general:using-general"]);
    let a = merge_passes(&declared, &namespace_pass(&declared, &kb), &Vec::new());
    let b = merge_passes(&declared, &namespace_pass(&declared, &kb), &Vec::new());
    assert_eq!(a, b);
}

#[test]
fn grep_pass_omits_skills_below_threshold() {
    let declared_bodies = strings(&["alpha beta gamma delta epsilon zeta"]);
    let bodies = strings(&["alpha beta unrelated nothing"]);
    let result = grep_candidates(&declared_bodies, "", &bodies);
    assert!(result.is_empty(), "expected empty, got {result:?}");
}

#[test]
fn grep_candidates_count_shared_and_total_distinct_tokens() {
    let declared_bodies = strings(&["alpha beta gamma"]);
    let bodies = strings(&[
        "alpha beta gamma delta epsilon zeta eta theta iota",
        "nothing here",
        "Alpha, BETA! gamma gamma the",
    ]);
    let result = grep_candidates(&declared_bodies, "", &bodies);
    assert_eq!(result, vec![(0, 3, 9), (2, 3, 3)]);
}

#[test]
fn tokenize_strips_lowercases_and_drops_stop_words() {
    assert_eq!(tokenize("The (Quick) fox, and THE dog!"), vec!["quick", "fox", "dog"]);
    assert!(tokenize("  ").is_empty());
    assert!(is_stop_word("their"));
    assert!(!is_stop_word("theirs"));
}

#[test]
fn source_path_joins_display_and_inner_paths() {
    assert_eq!(source_path_of("/kb", "/kb/skills/x/SKILL.md"), SourcePath::Inner(String::from("/kb/skills/x/SKILL.md")));
    assert_eq!(source_path_of("/home/kb", "/"), SourcePath::Display(String::from("/home/kb")));
    assert_eq!(
        source_path_of("/home/kb", "/skills/x/SKILL.md"),
        SourcePath::Joined(String::from("/home/kb"), String::from("skills/x/SKILL.md"))
    );
}
