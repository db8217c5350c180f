//! The text report, the number formats and the messages.

use margay::checks::{run_all, FileEntry, Issue, Category};
use margay::report::{distinct_path_count, issue_line_with, plural, text_report, Segment, Style};
use margay::text::{decimal_count, format_radix, octal_mode, shown_path, str_eq, str_starts_with};
use margay::{fixed_message, missing_path_message_shown, scanned_message};

fn line_text(line: &[Segment]) -> String {
    line.iter().map(|s| s.text.as_str()).collect::<Vec<_>>().join("")
}

fn lines(issues: &[Issue], quiet: bool) -> Vec<String> {
    text_report(issues, quiet).iter().map(|l| line_text(l)).collect()
}

fn issues() -> Vec<Issue> {
    run_all(&[
        FileEntry { path: b"./deploy.sh".to_vec(), mode: Some(0o644) },
        FileEntry { path: b"./.env".to_vec(), mode: Some(0o644) },
        FileEntry { path: b"./main.rs".to_vec(), mode: Some(0o755) },
    ])
}

#[test]
fn report_groups_by_title_order() {
    assert_eq!(
        lines(&issues(), false),
        vec![
            "Sensitive files too open",
            "  !! ./.env 0644 → 0600",
            "",
            "Shell scripts missing +x",
            "  +x ./deploy.sh 0644 → 0744",
            "",
            "Source files marked executable",
            "  -x ./main.rs 0755 → 0644",
            "",
            "✗ 3 issues found across 3 files",
        ]
    );
}

#[test]
fn report_styles() {
    let report = text_report(&issues(), false);
    assert_eq!(report[0][0].style, Style::Heading);
    let line = &report[1];
    let styles: Vec<Style> = line.iter().map(|s| s.style).collect();
    assert_eq!(
        styles,
        vec![
            Style::Plain,
            Style::SensitiveMarker,
            Style::Plain,
            Style::Path,
            Style::Plain,
            Style::Mode,
            Style::Plain,
            Style::FixMode
        ]
    );
    assert_eq!(report[4][1].style, Style::ShellMarker);
    assert_eq!(report[7][1].style, Style::SourceMarker);
    assert_eq!(report[9][0].style, Style::Failure);
}

#[test]
fn quiet_report_keeps_the_summary() {
    assert_eq!(lines(&issues(), true), vec!["✗ 3 issues found across 3 files"]);
    assert!(lines(&[], true).is_empty());
    assert_eq!(lines(&[], false), vec!["✓ no permission issues found"]);
    assert_eq!(text_report(&[], false)[0][0].style, Style::Success);
}

#[test]
fn summary_counts_distinct_files() {
    let issues = run_all(&[
        FileEntry { path: b".env.sh".to_vec(), mode: Some(0o644) },
    ]);
    assert_eq!(issues.len(), 2);
    assert_eq!(distinct_path_count(&issues), 1);
    assert_eq!(lines(&issues, true), vec!["✗ 2 issues found across 1 file"]);
    let same = run_all(&[
        FileEntry { path: b"dir/a.sh".to_vec(), mode: Some(0o644) },
        FileEntry { path: b"dir//a.sh/".to_vec(), mode: Some(0o644) },
        FileEntry { path: b"dir/./a.sh".to_vec(), mode: Some(0o644) },
        FileEntry { path: b"dir/b.sh".to_vec(), mode: Some(0o644) },
    ]);
    assert_eq!(distinct_path_count(&same), 2);
    assert_eq!(lines(&same, true), vec!["✗ 4 issues found across 2 files"]);
    let one = run_all(&[FileEntry { path: b"x.md".to_vec(), mode: Some(0o755) }]);
    assert_eq!(lines(&one, true), vec!["✗ 1 issue found across 1 file"]);
}

#[test]
fn unknown_modes_and_odd_paths() {
    let issue = Issue {
        path: b"dir/\xffname.sh".to_vec(),
        category: Category::ShellNeedsExec,
        mode: None,
        fix_mode: None,
        message: String::new(),
    };
    let l = lines(&[issue], false);
    assert_eq!(l[1], "  +x dir/\u{fffd}name.sh ---- ");
}

#[test]
fn plural_suffix() {
    assert_eq!(plural(0), "s");
    assert_eq!(plural(1), "");
    assert_eq!(plural(2), "s");
}

#[test]
fn number_formats() {
    assert_eq!(octal_mode(0o644), "0644");
    assert_eq!(octal_mode(0), "0000");
    assert_eq!(octal_mode(0o7), "0007");
    assert_eq!(octal_mode(0o7777), "7777");
    assert_eq!(octal_mode(0o100644), "100644");
    assert_eq!(decimal_count(0), "0");
    assert_eq!(decimal_count(1234567), "1234567");
    assert_eq!(format_radix(5, 2, 8), "00000101");
    assert_eq!(format_radix(u64::MAX, 10, 0), u64::MAX.to_string());
}

#[test]
fn octal_round_trip_on_all_modes() {
    for m in 0..=0o7777u32 {
        let s = octal_mode(m);
        assert_eq!(s.len(), 4);
        assert_eq!(u32::from_str_radix(&s, 8).unwrap(), m);
    }
}

#[test]
fn string_helpers() {
    assert!(str_eq("abc", "abc"));
    assert!(!str_eq("abc", "abd"));
    assert!(str_starts_with(".env.local", ".env."));
    assert!(!str_starts_with(".env", ".env."));
    assert!(str_starts_with("x", ""));
}

#[test]
fn messages() {
    assert_eq!(fixed_message(5), "margay: fixed 5 issue(s)");
    assert_eq!(scanned_message(12), "margay: scanned 12 files");
}

#[test]
fn issue_line_with_given_path_text() {
    let issue = &issues()[0];
    let line = issue_line_with(issue, "shown".to_string());
    assert_eq!(line_text(&line), "  +x shown 0644 → 0744");
    assert_eq!(missing_path_message_shown("x"), "path does not exist: x");
}

#[test]
fn paths_shown_as_text() {
    assert_eq!(shown_path(b"/a"), "/a");
    assert_eq!(shown_path(b"a\xffb"), "a\u{fffd}b");
    assert_eq!(margay::missing_path_message(b"/a"), "path does not exist: /a");
}
