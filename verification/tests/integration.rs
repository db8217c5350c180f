//! End-to-end scenarios of the audit: a fixture tree's files, their issues,
//! the report, the fixes and the exit code.

use margay::checks::{run_all, FileEntry, Issue};
use margay::fix::apply;
use margay::report::{text_report, Segment};
use margay::{missing_path_message, Cli};

fn entry(path: &str, mode: u32) -> FileEntry {
    FileEntry { path: path.as_bytes().to_vec(), mode: Some(mode) }
}

fn line_text(line: &[Segment]) -> String {
    line.iter().map(|s| s.text.as_str()).collect::<Vec<_>>().join("")
}

fn report_text(issues: &[Issue], quiet: bool) -> String {
    text_report(issues, quiet)
        .iter()
        .map(|l| line_text(l))
        .collect::<Vec<_>>()
        .join("\n")
}

fn cli_for(path: &str) -> Cli {
    Cli { path: Some(path.as_bytes().to_vec()), fix: false, json: false, quiet: false, verbose: false }
}

/// The files of a tree holding one issue of each category plus a clean file
/// (the walker hides the ignored script before the checks see it).
fn fixture() -> Vec<FileEntry> {
    vec![
        entry("./.env", 0o644),
        entry("./README.md", 0o644),
        entry("./deploy.sh", 0o644),
        entry("./lib.rs", 0o755),
    ]
}

#[test]
fn reports_issues_and_exits_nonzero() {
    let issues = run_all(&fixture());
    let out = report_text(&issues, false);
    assert!(out.contains("Shell scripts missing +x"));
    assert!(out.contains("Sensitive files too open"));
    assert!(out.contains("Source files marked executable"));
    assert!(out.contains("3 issues found"));
    assert_eq!(cli_for("./").exit_code(issues.len()), 1);
}

#[test]
fn fix_mode_corrects_permissions_and_exits_zero() {
    let files = fixture();
    let issues = run_all(&files);
    let changes = apply(&issues);
    let mut cli = cli_for("./");
    cli.fix = true;
    assert_eq!(cli.exit_code(issues.len()), 0);
    let mode_of = |name: &str| {
        changes.iter().rev().find(|c| c.path == name.as_bytes()).map(|c| c.mode).unwrap()
    };
    let shell_mode = mode_of("./deploy.sh") & 0o777;
    assert_eq!(shell_mode & 0o100, 0o100, "shell script now executable");
    let env_mode = mode_of("./.env") & 0o777;
    assert_eq!(env_mode & 0o077, 0, ".env no longer group/world readable");
    let src_mode = mode_of("./lib.rs") & 0o777;
    assert_eq!(src_mode & 0o111, 0, "source file no longer executable");

    // Second run should find nothing.
    let fixed: Vec<FileEntry> = files
        .iter()
        .map(|f| {
            let mode = changes
                .iter()
                .rev()
                .find(|c| c.path == f.path)
                .map(|c| c.mode)
                .or(f.mode);
            FileEntry { path: f.path.clone(), mode }
        })
        .collect();
    let again = run_all(&fixed);
    assert!(again.is_empty());
    assert_eq!(cli_for("./").exit_code(again.len()), 0);
}

#[test]
fn clean_tree_exits_zero() {
    let issues = run_all(&[entry("./README.md", 0o644)]);
    assert!(issues.is_empty());
    assert!(report_text(&issues, false).contains("no permission issues"));
    assert_eq!(cli_for("./").exit_code(issues.len()), 0);
}

#[test]
fn missing_path_is_friendly_error() {
    let message = missing_path_message(b"/this/does/not/exist/margay-xyz");
    assert!(message.contains("path does not exist"));
    assert_eq!(message, "path does not exist: /this/does/not/exist/margay-xyz");
}
