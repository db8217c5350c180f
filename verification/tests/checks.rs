//! The checks one by one: file names, extensions, categories, fix modes and
//! messages.

use margay::checks::{
    executable_source, ext_lower, file_mode, name_lower, run_all, sensitive, shell_scripts,
    Category, FileEntry,
};
use margay::paths::file_name_span;

fn ext(p: &str) -> Option<String> {
    ext_lower(p.as_bytes())
}

fn name(p: &str) -> Option<String> {
    name_lower(p.as_bytes())
}

#[test]
fn extension_follows_path_rules() {
    assert_eq!(ext("deploy.sh"), Some("sh".to_string()));
    assert_eq!(ext("./dir/Main.RS"), Some("rs".to_string()));
    assert_eq!(ext("archive.tar.GZ"), Some("gz".to_string()));
    assert_eq!(ext("./.env"), None);
    assert_eq!(ext(".env.local"), Some("local".to_string()));
    assert_eq!(ext("Makefile"), None);
    assert_eq!(ext("trailing."), Some("".to_string()));
    assert_eq!(ext("dir/file.sh/"), Some("sh".to_string()));
    assert_eq!(ext("dir/file.sh/."), Some("sh".to_string()));
    assert_eq!(ext("a.b/.."), None);
    assert_eq!(ext("/"), None);
    assert_eq!(ext(""), None);
}

#[test]
fn file_name_follows_path_rules() {
    assert_eq!(name("./dir/ID_RSA"), Some("id_rsa".to_string()));
    assert_eq!(name("/"), None);
    assert_eq!(name("."), None);
    assert_eq!(name("./"), None);
    assert_eq!(name(".."), None);
    assert_eq!(name("a/.."), None);
    assert_eq!(name("a//b//"), Some("b".to_string()));
    assert_eq!(name("a/./."), Some("a".to_string()));
    assert_eq!(file_name_span(b"x/yz"), Some((2, 4)));
}

#[test]
fn non_utf8_names_have_no_text() {
    // The file name is not UTF-8; the extension alone is.
    assert_eq!(name_lower(b"dir/\xff.SH"), None);
    assert_eq!(ext_lower(b"dir/\xff.SH"), Some("sh".to_string()));
    assert_eq!(ext_lower(b"dir/a.\xff"), None);
    // A file name that begins with ".env." but is not UTF-8 is not sensitive.
    assert!(!sensitive::is_sensitive(b".env.\xff"));
    // Its extension, though, makes a non-UTF-8 script a script.
    let issue = shell_scripts::check(b"\xff.sh", Some(0o644)).unwrap();
    assert_eq!(issue.fix_mode, Some(0o744));
}

#[test]
fn file_mode_masks_to_twelve_bits() {
    assert_eq!(file_mode(false, 0o100644), Some(0o644));
    assert_eq!(file_mode(false, 0o104755), Some(0o4755));
    assert_eq!(file_mode(true, 0o120777), None);
}

#[test]
fn shell_script_missing_exec_bit() {
    let issue = shell_scripts::check(b"./deploy.sh", Some(0o644)).unwrap();
    assert_eq!(issue.path, b"./deploy.sh".to_vec());
    assert_eq!(issue.category, Category::ShellNeedsExec);
    assert_eq!(issue.mode, Some(0o644));
    assert_eq!(issue.fix_mode, Some(0o744));
    assert_eq!(issue.message, "shell script is not user-executable (mode 644)");
    for e in ["a.bash", "a.ZSH", "a.fish"] {
        assert!(shell_scripts::check(e.as_bytes(), Some(0o600)).is_some());
    }
    assert!(shell_scripts::check(b"./deploy.sh", Some(0o744)).is_none());
    assert!(shell_scripts::check(b"./deploy.sh", None).is_none());
    assert!(shell_scripts::check(b"./deploy.py", Some(0o644)).is_none());
    // Group and other execute bits do not count.
    assert_eq!(shell_scripts::check(b"x.sh", Some(0o4055)).unwrap().fix_mode, Some(0o4155));
}

#[test]
fn sensitive_files_too_open() {
    let issue = sensitive::check(b"./.env", Some(0o644)).unwrap();
    assert_eq!(issue.category, Category::SensitiveTooOpen);
    assert_eq!(issue.fix_mode, Some(0o600));
    assert_eq!(issue.message, "sensitive file is group/world accessible (mode 644)");
    // setuid, setgid and sticky bits are kept; owner gets rw only.
    assert_eq!(sensitive::check(b"k.key", Some(0o7777)).unwrap().fix_mode, Some(0o7600));
    assert_eq!(sensitive::check(b"k.pem", Some(0o4701)).unwrap().fix_mode, Some(0o4600));
    assert!(sensitive::check(b"./.env", Some(0o600)).is_none());
    assert!(sensitive::check(b"./.env", Some(0o700)).is_none());
    assert!(sensitive::check(b"./.env", None).is_none());
    for p in ["id_rsa", "x/ID_ED25519", "id_dsa", "id_ecdsa", ".env", ".env.production", "a.KEY",
        "a.pem", "a.crt", "a.pfx"]
    {
        assert!(sensitive::is_sensitive(p.as_bytes()), "{p}");
    }
    for p in [".envrc", "env", "id_rsa.pub", "key", "a.txt", "/"] {
        assert!(!sensitive::is_sensitive(p.as_bytes()), "{p}");
    }
}

#[test]
fn source_files_marked_executable() {
    let issue = executable_source::check(b"./lib.rs", Some(0o755)).unwrap();
    assert_eq!(issue.category, Category::SourceExecutable);
    assert_eq!(issue.fix_mode, Some(0o644));
    assert_eq!(issue.message, "source file is marked executable (mode 755)");
    assert_eq!(executable_source::check(b"a.md", Some(0o2711)).unwrap().fix_mode, Some(0o2600));
    assert_eq!(executable_source::check(b"a.md", Some(0o601)).unwrap().fix_mode, Some(0o600));
    for e in ["go", "py", "ts", "js", "tsx", "jsx", "json", "toml", "yaml", "yml", "md", "txt",
        "html", "CSS"]
    {
        let p = format!("f.{e}");
        assert!(executable_source::check(p.as_bytes(), Some(0o700)).is_some(), "{e}");
    }
    assert!(executable_source::check(b"./lib.rs", Some(0o644)).is_none());
    assert!(executable_source::check(b"./run.sh", Some(0o755)).is_none());
}

#[test]
fn run_all_keeps_file_then_check_order() {
    let files = vec![
        FileEntry { path: b"b.rs".to_vec(), mode: Some(0o755) },
        FileEntry { path: b".env.sh".to_vec(), mode: Some(0o644) },
        FileEntry { path: b"a.sh".to_vec(), mode: None },
        FileEntry { path: b"c.txt".to_vec(), mode: Some(0o644) },
    ];
    let issues = run_all(&files);
    let got: Vec<(Vec<u8>, Category)> = issues.iter().map(|i| (i.path.clone(), i.category)).collect();
    assert_eq!(
        got,
        vec![
            (b"b.rs".to_vec(), Category::SourceExecutable),
            (b".env.sh".to_vec(), Category::ShellNeedsExec),
            (b".env.sh".to_vec(), Category::SensitiveTooOpen),
        ]
    );
}

#[test]
fn category_titles() {
    assert_eq!(Category::ShellNeedsExec.title(), "Shell scripts missing +x");
    assert_eq!(Category::SensitiveTooOpen.title(), "Sensitive files too open");
    assert_eq!(Category::SourceExecutable.title(), "Source files marked executable");
}

#[test]
fn names_and_extensions_agree_with_std() {
    let paths = [
        "deploy.sh", "./dir/Main.RS", "archive.tar.GZ", "./.env", ".env.local", "Makefile",
        "trailing.", "dir/file.sh/", "dir/file.sh/.", "a.b/..", "/", "", ".", "./", "..", "../x.Y",
        "a//b//", "a/./.", "/.hidden", "/a/b.c/d", "..tar", "...", "a..b", "x/ÄÖ.Ü",
    ];
    for p in paths {
        let path = std::path::Path::new(p);
        let want_ext = path.extension().and_then(|e| e.to_str()).map(|s| s.to_ascii_lowercase());
        let want_name = path.file_name().and_then(|n| n.to_str()).map(|s| s.to_ascii_lowercase());
        assert_eq!(ext_lower(p.as_bytes()), want_ext, "{p}");
        assert_eq!(name_lower(p.as_bytes()), want_name, "{p}");
    }
}
