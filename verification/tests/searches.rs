use pastaless::error::ToolError;
use pastaless::search::{
    glob_args, glob_response, glob_result, grep_args, grep_response, grep_result, is_dashed,
    result_limit_of, without_dash, ProcessOutput,
};

fn run(success: bool, code: Option<i32>, stdout: &[u8], stderr: &[u8]) -> ProcessOutput {
    ProcessOutput {
        success,
        code,
        stdout: stdout.to_vec(),
        stderr: stderr.to_vec(),
    }
}

#[test]
fn matches_in_the_output() {
    let r = grep_response("./src/main.rs:12:fn main() {\n./README.md:1:a: b: c\n", 100);
    let found: Vec<(&str, usize, &str)> = r
        .matches
        .iter()
        .map(|m| (m.path.as_str(), m.line, m.text.as_str()))
        .collect();
    assert_eq!(
        found,
        vec![
            ("./src/main.rs", 12, "fn main() {"),
            ("./README.md", 1, "a: b: c"),
        ]
    );
    assert!(!r.truncated);
}

#[test]
fn lines_that_report_nothing() {
    let r = grep_response(
        "no colon\na:b\na:x:text\n./.git/config:3:x\nsrc/target/x.rs:1:y\na:-1:z\n::\n",
        100,
    );
    assert!(r.matches.is_empty());
    assert!(!r.truncated);
}

#[test]
fn an_empty_text_and_path() {
    let r = grep_response(":7:\n", 100);
    assert_eq!(r.matches.len(), 1);
    assert_eq!(r.matches[0].path, "");
    assert_eq!(r.matches[0].line, 7);
    assert_eq!(r.matches[0].text, "");
}

#[test]
fn paths_are_shown_with_slashes() {
    let r = grep_response("src\\a.rs:1:x\\y\nsrc\\.env:2:z\n", 100);
    assert_eq!(r.matches[0].path, "src/a.rs");
    assert_eq!(r.matches[0].text, "x\\y");
    assert_eq!(r.matches[1].path, "src/.env");
}

#[test]
fn as_many_matches_as_allowed() {
    let output: String = (1..=5).map(|i| format!("f.rs:{i}:x\n")).collect();
    let r = grep_response(&output, 3);
    assert_eq!(r.matches.len(), 3);
    assert_eq!(r.matches[2].line, 3);
    assert!(r.truncated);
    let r = grep_response(&output, 5);
    assert_eq!(r.matches.len(), 5);
    assert!(r.truncated);
    let r = grep_response(&output, 6);
    assert_eq!(r.matches.len(), 5);
    assert!(!r.truncated);
}

#[test]
fn a_long_text_is_cut() {
    let r = grep_response(&format!("f:1:{}\ng:2:b\n", "x".repeat(2001)), 100);
    assert_eq!(r.matches[0].text, format!("{}...", "x".repeat(2000)));
    assert_eq!(r.matches.len(), 2);
    assert!(r.truncated);
}

#[test]
fn the_limit_of_matches() {
    assert_eq!(result_limit_of(None), 100);
    assert_eq!(result_limit_of(Some(0)), 1);
    assert_eq!(result_limit_of(Some(7)), 7);
    assert_eq!(result_limit_of(Some(300)), 300);
    assert_eq!(result_limit_of(Some(301)), 300);
}

#[test]
fn paths_in_the_output() {
    let r = glob_response("./b.rs\n./a.rs\n./target/c.rs\n./src\\d.rs\n./.env\n");
    assert_eq!(r.paths, vec!["./a.rs", "./b.rs", "./src/d.rs"]);
    assert!(!r.truncated);
}

#[test]
fn as_many_paths_as_allowed() {
    let output = |n: usize| -> String { (0..n).rev().map(|i| format!("f{i:04}\n")).collect() };
    let r = glob_response(&output(999));
    assert_eq!(r.paths.len(), 999);
    assert!(!r.truncated);
    let r = glob_response(&output(1000));
    assert_eq!(r.paths.len(), 1000);
    assert!(r.truncated);
    let r = glob_response(&output(1001));
    assert_eq!(r.paths.len(), 1000);
    assert_eq!(r.paths[0], "f0001");
    assert_eq!(r.paths[999], "f1000");
    assert!(r.truncated);
}

#[test]
fn arguments_of_a_search_for_text() {
    let args = |case: Option<bool>| grep_args("p q".to_string(), "src".to_string(), case);
    assert_eq!(
        args(Some(true)),
        vec!["-n", "--color", "never", "--with-filename", "p q", "src", "--case-sensitive"]
    );
    assert_eq!(args(Some(false))[6], "--ignore-case");
    assert_eq!(args(None)[6], "--ignore-case");
}

#[test]
fn a_pattern_that_starts_with_a_dash() {
    for pattern in ["-foo", "-", "--", "--pre=x", "-e"] {
        assert_eq!(
            grep_args(pattern.to_string(), ".".to_string(), None),
            vec!["-n", "--color", "never", "--with-filename", "-e", pattern, ".", "--ignore-case"]
        );
    }
    for pattern in ["", "a-b", " -a", "\u{2212}a"] {
        assert_eq!(
            grep_args(pattern.to_string(), ".".to_string(), None),
            vec!["-n", "--color", "never", "--with-filename", pattern, ".", "--ignore-case"]
        );
    }
    assert_eq!(
        glob_args("-foo".to_string()),
        vec!["--files", ".", "-g", "-foo"]
    );
}

#[test]
fn a_path_that_starts_with_a_dash() {
    assert!(is_dashed("-x"));
    assert!(!is_dashed(""));
    assert!(!is_dashed("x-"));
    assert_eq!(without_dash("-x/y".to_string()), "./-x/y");
    assert_eq!(without_dash("-".to_string()), "./-");
    assert_eq!(without_dash("x/-y".to_string()), "x/-y");
    assert_eq!(without_dash(".".to_string()), ".");
}

#[test]
fn arguments_of_a_search_for_files() {
    assert_eq!(
        glob_args("**/*.rs".to_string()),
        vec!["--files", ".", "-g", "**/*.rs"]
    );
}

#[test]
fn a_run_that_finds_text() {
    let r = grep_result(Ok(run(true, Some(0), b"f:1:a\xff\n", b"")), 10).unwrap();
    assert_eq!(r.matches[0].text, "a\u{fffd}");
}

#[test]
fn a_run_that_finds_nothing() {
    let r = grep_result(Ok(run(false, Some(1), b"f:1:a\n", b"oops")), 10).unwrap();
    assert!(r.matches.is_empty());
    assert!(!r.truncated);
}

#[test]
fn a_run_that_fails() {
    let e = grep_result(Ok(run(false, Some(2), b"", b"bad \xff regex")), 10).unwrap_err();
    assert!(matches!(&e, ToolError::SearchFailed(s) if s == "bad \u{fffd} regex"));
    assert_eq!(e.message(), "ripgrep failed: bad \u{fffd} regex");
    let e = grep_result(Ok(run(false, None, b"", b"")), 10).unwrap_err();
    assert_eq!(e.message(), "ripgrep failed: ");
    let e = glob_result(Ok(run(false, Some(1), b"", b"x"))).unwrap_err();
    assert_eq!(e.message(), "ripgrep failed: x");
}

#[test]
fn a_run_that_cannot_be_made() {
    let e = grep_result(Err("not found".to_string()), 10).unwrap_err();
    assert_eq!(e.message(), "failed to run ripgrep: not found");
    let e = glob_result(Err("not found".to_string())).unwrap_err();
    assert!(matches!(e, ToolError::SearchUnavailable(_)));
}

#[test]
fn a_run_that_finds_files() {
    let r = glob_result(Ok(run(true, Some(0), b"b\n\xfe\na\n", b""))).unwrap();
    assert_eq!(r.paths, vec!["a", "b", "\u{fffd}"]);
}
