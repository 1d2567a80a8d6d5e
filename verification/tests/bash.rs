use ailly::bash::{format_bash_output, has_compound_marker, path_escapes_cwd, BashClassifier};
use ailly::permissions::Classification;

const CWD: &str = "/home/dev/project";

fn classifier_for_test() -> BashClassifier {
    BashClassifier::with_defaults(CWD)
}

fn args_of(command: &str) -> serde_json::Value {
    let mut m = serde_json::Map::new();
    m.insert(String::from("command"), serde_json::Value::from(command));
    serde_json::Value::Object(m)
}

fn classify(classifier: &BashClassifier, command: &str) -> Classification {
    let args = args_of(command);
    classifier.classify(args.get("command").and_then(|v| v.as_str()))
}

#[test]
fn read_command_classifies_read() {
    let c = classifier_for_test();
    for cmd in ["ls", "pwd", "cat README.md", "git status", "git log"] {
        assert_eq!(classify(&c, cmd), Classification::Read, "{cmd} should classify as Read");
    }
}

#[test]
fn safe_command_classifies_safe() {
    let c = classifier_for_test();
    for cmd in ["cargo build", "cargo test", "git commit", "make"] {
        assert_eq!(classify(&c, cmd), Classification::Safe, "{cmd} should classify as Safe");
    }
}

#[test]
fn unsafe_command_classifies_unsafe() {
    let c = classifier_for_test();
    for cmd in [
        "curl https://example.com",
        "sudo rm -rf /tmp/x",
        "git clone https://example.com/repo",
        "cargo publish",
    ] {
        assert_eq!(classify(&c, cmd), Classification::Unsafe, "{cmd} should classify as Unsafe");
    }
}

#[test]
fn git_push_force_demotes_to_unsafe() {
    let c = classifier_for_test();
    for flag in ["--force", "-f", "--force-with-lease"] {
        let cmd = format!("git push origin main {flag}");
        assert_eq!(classify(&c, &cmd), Classification::Unsafe, "{cmd} should demote to Unsafe");
    }
}

#[test]
fn git_push_without_force_is_safe() {
    let c = classifier_for_test();
    assert_eq!(classify(&c, "git push origin main"), Classification::Safe);
}

#[test]
fn git_pull_and_git_fetch_classify_safe() {
    let c = classifier_for_test();
    assert_eq!(classify(&c, "git pull"), Classification::Safe);
    assert_eq!(classify(&c, "git fetch origin"), Classification::Safe);
}

#[test]
fn find_with_delete_or_exec_demotes_to_unsafe() {
    let c = classifier_for_test();
    for flag in ["-delete", "-exec rm {} ;", "-execdir rm {} ;"] {
        let cmd = format!("find . -name foo {flag}");
        assert_eq!(classify(&c, &cmd), Classification::Unsafe, "{cmd} should demote to Unsafe");
    }
    assert_eq!(classify(&c, "find . -name foo"), Classification::Read);
}

#[test]
fn path_arg_outside_cwd_demotes() {
    let c = classifier_for_test();
    assert_eq!(classify(&c, "cat /etc/passwd"), Classification::Unsafe, "absolute path outside cwd must demote");
    assert_eq!(
        classify(&c, "cat ../sibling/file"),
        Classification::Unsafe,
        "parent-traversing relative path must demote"
    );
    assert_eq!(classify(&c, "cat README.md"), Classification::Read);
}

#[test]
fn unknown_head_command_falls_through_unsafe() {
    let c = classifier_for_test();
    assert_eq!(classify(&c, "totally-not-a-known-command --do-stuff"), Classification::Unsafe);
}

#[test]
fn compound_command_classifies_unsafe() {
    let c = classifier_for_test();
    for cmd in [
        "cat foo && cat bar",
        "cat foo || cat bar",
        "cat foo; cat bar",
        "cat foo | grep bar",
        "echo $(date)",
        "echo `date`",
        "echo hi > /tmp/out",
        "echo hi >> /tmp/out",
    ] {
        assert_eq!(classify(&c, cmd), Classification::Unsafe, "{cmd} should classify as Unsafe (compound)");
    }
    assert_eq!(
        classify(&c, "echo 'hello;world'"),
        Classification::Read,
        "quoted ; must not trip compound detection"
    );
}

#[test]
fn glob_override_takes_precedence_over_builtin() {
    let c = BashClassifier::builder(CWD).deny_unsafe("ls*").build();
    assert_eq!(classify(&c, "ls"), Classification::Unsafe, "override must win over the built-in Read bucket for ls");
}

#[test]
fn glob_override_first_match_wins() {
    let c = BashClassifier::builder(CWD).allow_read("cargo*").deny_unsafe("cargo*").build();
    assert_eq!(classify(&c, "cargo build"), Classification::Read, "first matching override must win");
}

#[test]
fn lex_failure_classifies_unsafe() {
    let c = classifier_for_test();
    assert_eq!(classify(&c, "echo \"unterminated"), Classification::Unsafe);
}

#[test]
fn missing_command_argument_classifies_unsafe() {
    let c = classifier_for_test();
    assert_eq!(c.classify(None), Classification::Unsafe);
    assert_eq!(classify(&c, ""), Classification::Unsafe);
}

#[test]
fn compound_markers_outside_quotes_only() {
    assert!(has_compound_marker("a && b"));
    assert!(has_compound_marker("echo x > /dev/null"));
    assert!(!has_compound_marker("echo \"a | b\""));
    assert!(!has_compound_marker("ls -la"));
}

#[test]
fn path_escape_is_judged_after_normalising() {
    assert!(path_escapes_cwd("/etc/passwd", CWD));
    assert!(path_escapes_cwd("../x", CWD));
    assert!(!path_escapes_cwd("src/../README.md", CWD));
    assert!(!path_escapes_cwd("/home/dev/project/src", CWD));
}

#[test]
fn bash_output_joins_stdout_stderr_and_exit_footer() {
    assert_eq!(format_bash_output(b"hi\n", b"", 0), "hi\n\n[exit: 0]");
    assert_eq!(format_bash_output(b"out", b"err", 0), "out\n--- stderr ---\nerr\n\n[exit: 0]");
    assert!(format_bash_output(b"", b"", 7).ends_with("[exit: 7]"));
    assert!(!format_bash_output(b"only-stdout\n", b"", 0).contains("--- stderr ---"));
}

#[test]
fn bash_output_replaces_invalid_utf8_and_truncates_at_the_cap() {
    assert!(format_bash_output(&[0xff, 0xfe], b"", 0).contains('\u{FFFD}'));
    let big = vec![b'A'; 50000];
    let out = format_bash_output(&big, b"", 0);
    assert!(out.contains("[truncated]"));
    assert!(out.ends_with("[exit: 0]"));
    assert!(out.find("[truncated]").unwrap() < out.find("[exit: 0]").unwrap());
}
