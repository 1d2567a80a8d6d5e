use ailly::fs_tools::{
    absent_verdict, created_summary, edit_summary, glob_recurses, grep_body, is_utf8_error, list_entries, read_span,
    names_utf8, splice_body, split_text, under_root, ListEntry,
};
use ailly::fs_errors::{
    check_under_root, FsAbsentError, FsEditError, FsGrepError, FsListError, FsReadError, ResolveError,
};
use ailly::range::{LineRange, LineRangeError};

fn range(start: u32, end: u32) -> LineRange {
    LineRange::try_from(start..end).unwrap()
}

fn edit(body: &str, start: u32, end: u32, replacement: &str) -> Result<(String, usize), usize> {
    splice_body(body, &range(start, end), replacement)
}

#[test]
fn rewrites_a_middle_line_and_preserves_trailing_newline() {
    let (out, n) = edit("one\ntwo\nthree\n", 2, 2, "TWO").unwrap();
    assert_eq!(out, "one\nTWO\nthree\n");
    let confirmation = edit_summary("a.txt", 2, 2, n);
    assert!(confirmation.contains("a.txt"));
    assert!(confirmation.contains("2-2"));
    assert!(confirmation.contains("1 lines"));
}

#[test]
fn rewrites_first_line() {
    assert_eq!(edit("one\ntwo\nthree\n", 1, 1, "ONE").unwrap().0, "ONE\ntwo\nthree\n");
}

#[test]
fn rewrites_last_line_without_changing_trailing_newline() {
    assert_eq!(edit("one\ntwo\nthree\n", 3, 3, "THREE").unwrap().0, "one\ntwo\nTHREE\n");
}

#[test]
fn no_trailing_newline_is_preserved_after_edit() {
    assert_eq!(edit("one\ntwo\nthree", 2, 2, "TWO").unwrap().0, "one\nTWO\nthree");
}

#[test]
fn multi_line_replacement_writes_two_lines() {
    let (out, n) = edit("one\ntwo\nthree\n", 2, 2, "a\nb").unwrap();
    assert_eq!(edit_summary("a.txt", 2, 2, n), "edited a.txt: replaced lines 2-2 with 2 lines");
    assert_eq!(out, "one\na\nb\nthree\n");
}

#[test]
fn empty_replacement_deletes_the_range() {
    let (out, n) = edit("one\ntwo\nthree\n", 2, 2, "").unwrap();
    assert!(edit_summary("a.txt", 2, 2, n).contains("0 lines"));
    assert_eq!(out, "one\nthree\n");
}

#[test]
fn out_of_range_when_end_exceeds_total_lines() {
    assert_eq!(edit("one\ntwo\nthree\n", 2, 9, "x"), Err(3));
}

#[test]
fn creates_a_missing_file_with_replacement_as_body() {
    let confirmation = created_summary("new.txt", "hello\nworld\n");
    assert!(confirmation.contains("created"));
    assert!(confirmation.contains("new.txt"));
    assert_eq!(created_summary("blank.txt", ""), "created blank.txt with 0 lines");
    assert_eq!(created_summary("b.txt", "body"), "created b.txt with 1 lines");
}

#[test]
fn read_span_joins_the_selected_lines() {
    assert_eq!(read_span("a\nb\nc\nd", &range(2, 3)), Ok(String::from("b\nc")));
    assert_eq!(read_span("a\nb", &range(1, 5)), Err(2));
    assert_eq!(read_span("a\nb\n", &range(3, 3)), Ok(String::new()));
}

#[test]
fn split_text_splits_at_each_newline() {
    assert_eq!(split_text("a\n\nb"), vec!["a", "", "b"]);
    assert_eq!(split_text(""), vec![""]);
    assert_eq!(split_text("x\n"), vec!["x", ""]);
}

#[test]
fn grep_body_numbers_matching_lines_from_one() {
    let found = grep_body("fn main\nlet x\nfn helper", "^fn ").unwrap();
    let got: Vec<(usize, &str)> = found.iter().map(|m| (m.line, m.text.as_str())).collect();
    assert_eq!(got, vec![(1, "fn main"), (3, "fn helper")]);
    assert!(grep_body("anything", "[unclosed").is_err());
}

#[test]
fn absent_verdict_is_paused_while_the_needle_is_present() {
    assert_eq!(absent_verdict("wait TODO-marker here", "TODO-marker"), "paused");
    assert_eq!(absent_verdict("all done", "TODO-marker"), "cleared");
}

#[test]
fn utf8_errors_are_recognised_by_message() {
    assert!(is_utf8_error("stream did not contain valid UTF-8"));
    assert!(is_utf8_error("invalid utf-8 sequence"));
    assert!(!is_utf8_error("permission denied"));
}

#[test]
fn under_root_compares_text_prefixes() {
    assert!(under_root("/root/sub/file.txt", "/root"));
    assert!(!under_root("/file.txt", "/root"));
}

#[test]
fn glob_recursion_needs_a_leading_double_star() {
    assert!(glob_recurses(Some("**/*.rs")));
    assert!(!glob_recurses(Some("*.rs")));
    assert!(!glob_recurses(None));
}

fn entry(name: &str, is_dir: bool) -> ListEntry {
    ListEntry {
        name: String::from(name),
        is_dir,
        size: if is_dir { None } else { Some(1) },
    }
}

#[test]
fn list_entries_put_directories_first_then_sort_by_name() {
    let walked = vec![
        (String::from("/r/b.txt"), entry("b.txt", false)),
        (String::from("/r/zdir"), entry("zdir", true)),
        (String::from("/r/a.rs"), entry("a.rs", false)),
        (String::from("/r/adir"), entry("adir", true)),
    ];
    let listed = list_entries(walked, None).unwrap();
    let names: Vec<&str> = listed.iter().map(|e| e.name.as_str()).collect();
    assert_eq!(names, vec!["adir", "zdir", "a.rs", "b.txt"]);
}

#[test]
fn list_entries_filter_by_glob_and_reject_a_bad_one() {
    let walked = vec![
        (String::from("/r/b.txt"), entry("b.txt", false)),
        (String::from("/r/a.rs"), entry("a.rs", false)),
    ];
    let listed = list_entries(walked, Some("*.rs")).unwrap();
    assert_eq!(listed.len(), 1);
    assert_eq!(listed[0].name, "a.rs");
    assert_eq!(list_entries(Vec::new(), Some("a[")), Err(String::from("a[")));
}

#[test]
fn resolve_errors_render_their_messages() {
    let outside = ResolveError::OutsideRoot { path: "/file.txt".to_string(), root: "/root".to_string() };
    assert_eq!(outside.message(), "artifact /file.txt outside /root");
    let joined = ResolveError::ResolvePath { path: "a/../..".to_string(), source: "bad".to_string() };
    assert_eq!(joined.message(), "resolving a/../..");
}

#[test]
fn check_under_root_accepts_children_and_rejects_escapes() {
    assert_eq!(check_under_root("/root/sub/file.txt", "/root"), Ok(()));
    assert_eq!(
        check_under_root("/file.txt", "/root"),
        Err(ResolveError::OutsideRoot { path: "/file.txt".to_string(), root: "/root".to_string() })
    );
}

#[test]
fn tool_errors_render_their_messages() {
    let e = FsReadError::OutOfRange { path: "notes.md".to_string(), end: 9, total_lines: 4 };
    assert_eq!(e.message(), "range end 9 exceeds total lines 4 of notes.md");
    assert_eq!(FsReadError::NotAFile { path: "d".to_string() }.message(), "path d is not a file");
    assert_eq!(FsReadError::NotUtf8 { path: "b.bin".to_string() }.message(), "file b.bin is not valid UTF-8");
    assert_eq!(FsReadError::LineRange(LineRangeError::InvalidStart).message(), "line range start must be >= 1");
    assert_eq!(
        FsEditError::Write { path: "x".to_string(), source: "denied".to_string() }.message(),
        "writing x"
    );
    assert_eq!(FsEditError::Read { path: "x".to_string(), source: "gone".to_string() }.message(), "reading x");
    assert_eq!(FsListError::NotADirectory { path: "f".to_string() }.message(), "path f is not a directory");
    assert_eq!(
        FsListError::ReadDir { path: "d".to_string(), source: "io".to_string() }.message(),
        "reading directory d"
    );
    assert_eq!(
        FsListError::InvalidGlob { glob: "[".to_string(), source: "unclosed".to_string() }.message(),
        "invalid glob ["
    );
    assert_eq!(FsAbsentError::Missing { path: "a.md".to_string() }.message(), "artifact a.md does not exist");
    assert_eq!(
        FsAbsentError::Exists { path: "a.md".to_string(), source: "io".to_string() }.message(),
        "checking existence of a.md"
    );
    assert_eq!(FsGrepError::NotFound { path: "nope".to_string() }.message(), "path nope does not exist");
    assert_eq!(
        FsGrepError::InvalidPattern { pattern: "(".to_string(), source: "unclosed group".to_string() }.message(),
        "invalid pattern ("
    );
    assert_eq!(
        FsGrepError::Resolve(ResolveError::OutsideRoot { path: "/x".to_string(), root: "/r".to_string() }).message(),
        "artifact /x outside /r"
    );
}

#[test]
fn names_utf8_only_matches_the_upper_case_spelling() {
    assert!(names_utf8("stream did not contain valid UTF-8"));
    assert!(!names_utf8("invalid utf-8 sequence"));
    assert!(is_utf8_error("invalid utf-8 sequence"));
}

/// `path` joined onto `root` and placed under it, as the file tools do.
fn resolve_under_root(root: &vfs::VfsPath, path: &str) -> Result<vfs::VfsPath, ResolveError> {
    let resolved = root.join(path).map_err(|source| ResolveError::ResolvePath {
        path: path.to_string(),
        source: source.to_string(),
    })?;
    check_under_root(resolved.as_str(), root.as_str())?;
    Ok(resolved)
}

fn memory_root() -> vfs::VfsPath {
    let fs = vfs::VfsPath::new(vfs::MemoryFS::new());
    let root = fs.join("root").unwrap();
    root.create_dir().unwrap();
    root
}

#[test]
fn resolves_a_relative_child() {
    let root = memory_root();
    let sub = root.join("sub").unwrap();
    sub.create_dir().unwrap();
    sub.join("file.txt").unwrap().create_file().unwrap();

    let resolved = resolve_under_root(&root, "sub/file.txt").unwrap();
    assert_eq!(resolved.as_str(), "/root/sub/file.txt");
}

#[test]
fn rejects_a_dotdot_escape_with_outside_root() {
    let root = memory_root();
    root.join("file.txt").unwrap().create_file().unwrap();

    let err = resolve_under_root(&root, "../file.txt").unwrap_err();
    match err {
        ResolveError::OutsideRoot { path, root } => {
            assert_eq!(path, "/file.txt");
            assert_eq!(root, "/root");
        }
        other => panic!("expected OutsideRoot, got {other:?}"),
    }
}

#[test]
fn list_entries_refuses_a_glob_longer_than_the_limit() {
    let glob = "a".repeat(ailly::bash::GLOB_LEN_LIMIT + 1);
    assert_eq!(list_entries(Vec::new(), Some(&glob)), Err(glob.clone()));
}

#[test]
fn list_entries_answers_a_huge_glob_without_panicking() {
    let glob = "[!a]".repeat(60000);
    match list_entries(Vec::new(), Some(&glob)) {
        Ok(listed) => assert!(listed.is_empty()),
        Err(g) => assert_eq!(g, glob),
    }
}

#[test]
fn grep_total_sums_matches_over_files() {
    let m = |line: usize| ailly::fs_tools::GrepMatch { line, text: "x".to_string() };
    let found = vec![("a".to_string(), vec![m(1), m(3)]), ("b".to_string(), vec![]), ("c".to_string(), vec![m(2)])];
    assert_eq!(ailly::fs_tools::grep_total(&found), 3);
    assert_eq!(ailly::fs_tools::grep_total(&Vec::new()), 0);
}
