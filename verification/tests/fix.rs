//! Fix plans, exit codes and the laws on concrete values.

use margay::checks::{run_all, FileEntry, Issue, Category};
use margay::fix::{apply, apply_one, ModeChange};
use margay::{Cli, Output};

fn cli() -> Cli {
    Cli { path: None, fix: false, json: false, quiet: false, verbose: false }
}

#[test]
fn apply_changes_each_fixable_issue_in_order() {
    let mut issues = run_all(&[
        FileEntry { path: b"a.sh".to_vec(), mode: Some(0o644) },
        FileEntry { path: b"b.md".to_vec(), mode: Some(0o775) },
    ]);
    issues.push(Issue {
        path: b"c.sh".to_vec(),
        category: Category::ShellNeedsExec,
        mode: None,
        fix_mode: None,
        message: String::new(),
    });
    let changes = apply(&issues);
    assert_eq!(
        changes,
        vec![
            ModeChange { path: b"a.sh".to_vec(), mode: 0o744 },
            ModeChange { path: b"b.md".to_vec(), mode: 0o664 },
        ]
    );
    assert_eq!(apply_one(&issues[2]), None);
    assert!(apply(&[]).is_empty());
}

#[test]
fn second_run_clean_for_single_kind_files() {
    for (path, mode) in [("x.sh", 0o600), ("id_rsa", 0o777), ("y.json", 0o7711), (".env", 0o640), (".env.md", 0o777)] {
        let issues = run_all(&[FileEntry { path: path.as_bytes().to_vec(), mode: Some(mode) }]);
        assert!(!issues.is_empty());
        let fixed = issues[0].fix_mode;
        assert!(issues.iter().all(|i| i.fix_mode == fixed));
        assert!(run_all(&[FileEntry { path: path.as_bytes().to_vec(), mode: fixed }]).is_empty());
    }
}

#[test]
fn files_of_two_kinds_get_one_mode() {
    // ".env.sh" is a shell script and a sensitive file: its fix keeps the
    // user-execute bit and closes it to group and others.
    let issues = run_all(&[FileEntry { path: b".env.sh".to_vec(), mode: Some(0o755) }]);
    assert_eq!(issues.len(), 1);
    assert_eq!(issues[0].category, Category::SensitiveTooOpen);
    assert_eq!(issues[0].fix_mode, Some(0o700));
    assert!(run_all(&[FileEntry { path: b".env.sh".to_vec(), mode: Some(0o700) }]).is_empty());

    let issues = run_all(&[FileEntry { path: b".env.sh".to_vec(), mode: Some(0o4644) }]);
    assert_eq!(issues.len(), 2);
    assert!(issues.iter().all(|i| i.fix_mode == Some(0o4700)));

    // ".env.json" is a source file and a sensitive file: both issues carry 0600.
    let files = [FileEntry { path: b".env.json".to_vec(), mode: Some(0o755) }];
    let issues = run_all(&files);
    assert_eq!(issues.len(), 2);
    assert!(issues.iter().all(|i| i.fix_mode == Some(0o600)));
    let changes = apply(&issues);
    let last = changes.last().unwrap().mode;
    assert!(run_all(&[FileEntry { path: b".env.json".to_vec(), mode: Some(last) }]).is_empty());
}

#[test]
fn same_file_name_same_verdict() {
    for dir in ["", "a/", "/deep/er/", "./x/../"] {
        let p = format!("{dir}.ENV.local");
        assert!(margay::checks::sensitive::is_sensitive(p.as_bytes()), "{p}");
        let q = format!("{dir}notes.md");
        assert!(!margay::checks::sensitive::is_sensitive(q.as_bytes()), "{q}");
    }
}

#[test]
fn exit_codes_and_outputs() {
    let mut c = cli();
    assert_eq!(c.exit_code(0), 0);
    assert_eq!(c.exit_code(3), 1);
    assert_eq!(c.output(), Output::Text);
    c.json = true;
    assert_eq!(c.output(), Output::Json);
    assert!(!c.reports_scan());
    c.verbose = true;
    assert!(!c.reports_scan());
    c.json = false;
    assert!(c.reports_scan());
    c.fix = true;
    assert_eq!(c.output(), Output::Fix);
    assert_eq!(c.exit_code(3), 0);
    assert!(c.reports_fixes());
    c.quiet = true;
    assert!(!c.reports_fixes());
}

#[test]
fn root_defaults_to_current_directory() {
    assert_eq!(cli().root(), b".".to_vec());
    let mut c = cli();
    c.path = Some(b"./services/api".to_vec());
    assert_eq!(c.root(), b"./services/api".to_vec());
}
