//! The permission checks: what an issue is, and running every check on
//! every file.
use vstd::prelude::*;
use vstd::utf8::{decode_utf8, valid_utf8};
use crate::paths::{copy_bytes, extension, extension_span, file_name, file_name_span};
use crate::text::{ascii_lower, string_from_utf8, to_ascii_lowercase};

pub mod executable_source;
pub mod sensitive;
pub mod shell_scripts;

verus! {

/// The kind of a permission problem.
#[derive(Clone, Copy, Debug, PartialEq, Eq, Structural)]
pub enum Category {
    /// Shell script missing the user-execute bit.
    ShellNeedsExec,
    /// Sensitive file with permissions looser than 0o600.
    SensitiveTooOpen,
    /// Source file that should not be executable.
    SourceExecutable,
}

impl Category {
    /// The heading under which issues of this kind are listed.
    pub open spec fn title_text(self) -> Seq<char> {
        match self {
            Category::ShellNeedsExec => "Shell scripts missing +x"@,
            Category::SensitiveTooOpen => "Sensitive files too open"@,
            Category::SourceExecutable => "Source files marked executable"@,
        }
    }

    /// The heading under which issues of this kind are listed.
    pub fn title(self) -> (t: &'static str)
        ensures
            t@ == self.title_text(),
    {
        match self {
            Category::ShellNeedsExec => "Shell scripts missing +x",
            Category::SensitiveTooOpen => "Sensitive files too open",
            Category::SourceExecutable => "Source files marked executable",
        }
    }
}

/// One detected permission issue.
#[derive(Debug, Clone, PartialEq, Eq)]
pub struct Issue {
    /// The file's path, as the bytes the operating system holds.
    pub path: Vec<u8>,
    pub category: Category,
    /// Current mode (only the low 12 bits are meaningful); `None` where the
    /// platform has no Unix permissions.
    pub mode: Option<u32>,
    /// The mode that fixing the issue sets; `None` where the platform has no
    /// Unix permissions.
    pub fix_mode: Option<u32>,
    pub message: String,
}

/// An issue as plain values.
pub struct IssueView {
    pub path: Seq<u8>,
    pub category: Category,
    pub mode: Option<u32>,
    pub fix_mode: Option<u32>,
    pub message: Seq<char>,
}

impl View for Issue {
    type V = IssueView;

    open spec fn view(&self) -> IssueView {
        IssueView {
            path: self.path@,
            category: self.category,
            mode: self.mode,
            fix_mode: self.fix_mode,
            message: self.message@,
        }
    }
}

/// An optional issue as plain values.
pub open spec fn issue_opt_view(o: Option<Issue>) -> Option<IssueView> {
    match o {
        Some(i) => Some(i@),
        None => None,
    }
}

/// A list of issues as plain values.
pub open spec fn issues_view(v: Seq<Issue>) -> Seq<IssueView> {
    v.map_values(|i: Issue| i@)
}

/// A file to check: its path and its permission mode, `None` where the mode
/// could not be read (no Unix permissions, a symbolic link, or a failed
/// metadata call).
#[derive(Debug, PartialEq, Eq)]
pub struct FileEntry {
    pub path: Vec<u8>,
    pub mode: Option<u32>,
}

/// The permission bits of a file, given what its metadata says: `None` for a
/// symbolic link, else the low twelve bits of the mode.
pub fn file_mode(is_symlink: bool, permission_mode: u32) -> (r: Option<u32>)
    ensures
        r == (if is_symlink {
            None::<u32>
        } else {
            Some(permission_mode & 0o7777u32)
        }),
{
    if is_symlink {
        None
    } else {
        Some(permission_mode & 0o7777u32)
    }
}

/// Bytes read as UTF-8 text with ASCII capitals made small; `None` when they
/// are not valid UTF-8.
pub open spec fn lowered_text(bytes: Seq<u8>) -> Option<Seq<char>> {
    if valid_utf8(bytes) {
        Some(ascii_lower(decode_utf8(bytes)))
    } else {
        None
    }
}

/// The lowercase extension of a path, when it has one that is valid UTF-8.
pub open spec fn ext_lower_spec(p: Seq<u8>) -> Option<Seq<char>> {
    match extension(p) {
        Some(e) => lowered_text(e),
        None => None,
    }
}

/// The lowercase file name of a path, when it has one that is valid UTF-8.
pub open spec fn name_lower_spec(p: Seq<u8>) -> Option<Seq<char>> {
    match file_name(p) {
        Some(n) => lowered_text(n),
        None => None,
    }
}

fn lower_text(bytes: Vec<u8>) -> (r: Option<String>)
    ensures
        r.deep_view() == lowered_text(bytes@),
{
    match string_from_utf8(bytes) {
        Some(s) => Some(to_ascii_lowercase(s.as_str())),
        None => None,
    }
}

/// Lowercase file extension, if any.
pub fn ext_lower(path: &[u8]) -> (r: Option<String>)
    ensures
        r.deep_view() == ext_lower_spec(path@),
{
    match file_name_span(path) {
        Some((s, e)) => match extension_span(path, s, e) {
            Some((a, b)) => lower_text(copy_bytes(path, a, b)),
            None => None,
        },
        None => None,
    }
}

/// Lowercase file name, if any.
pub fn name_lower(path: &[u8]) -> (r: Option<String>)
    ensures
        r.deep_view() == name_lower_spec(path@),
{
    match file_name_span(path) {
        Some((s, e)) => lower_text(copy_bytes(path, s, e)),
        None => None,
    }
}


/// The one mode that repairs every issue of a file with mode `mode`: group
/// and other access removed from a sensitive file, then the user-execute bit
/// given to a shell script, then the execute bits taken from a source file,
/// each step only where that check finds the mode at fault.
pub open spec fn target_mode(path: Seq<u8>, mode: u32) -> u32 {
    let t1 = if sensitive::is_sensitive_spec(path) && mode & 0o077u32 != 0 {
        sensitive::sensitive_fix(mode)
    } else {
        mode
    };
    let t2 = if shell_scripts::is_shell_script_spec(path) && t1 & 0o100u32 == 0 {
        shell_scripts::shell_fix(t1)
    } else {
        t1
    };
    if executable_source::is_source_file_spec(path) && t2 & 0o111u32 != 0 {
        executable_source::source_fix(t2)
    } else {
        t2
    }
}

/// The one mode that repairs every issue of the file at `path` with mode
/// `mode`.
pub fn fix_mode_for(path: &[u8], mode: u32) -> (r: u32)
    ensures
        r == target_mode(path@, mode),
{
    let mut t = mode;
    if sensitive::is_sensitive(path) && t & 0o077u32 != 0 {
        t = (t & !0o077u32 & 0o7777u32 & !0o177u32) | 0o600u32;
    }
    if shell_scripts::is_shell_script(path) && t & 0o100u32 == 0 {
        t = t | 0o100u32;
    }
    if executable_source::is_source_file(path) && t & 0o111u32 != 0 {
        t = t & !0o111u32 & 0o7777u32;
    }
    t
}

/// What the checks make of a path depends on its file name alone: two paths
/// with the same file name are alike for every check and get the same fix
/// mode (the file need not exist, and the answer never changes).
pub proof fn law_checks_read_file_name_only(a: Seq<u8>, b: Seq<u8>, mode: u32)
    requires
        file_name(a) == file_name(b),
    ensures
        sensitive::is_sensitive_spec(a) == sensitive::is_sensitive_spec(b),
        shell_scripts::is_shell_script_spec(a) == shell_scripts::is_shell_script_spec(b),
        executable_source::is_source_file_spec(a) == executable_source::is_source_file_spec(b),
        target_mode(a, mode) == target_mode(b, mode),
{
}

/// A file named `name` is sensitive, a shell script or a source file in
/// every directory alike.
pub proof fn law_checks_alike_in_any_directory(dir1: Seq<u8>, dir2: Seq<u8>, name: Seq<u8>)
    requires
        name.len() > 0,
        forall|i: int| 0 <= i < name.len() ==> !crate::paths::is_sep(#[trigger] name[i]),
        !crate::paths::is_dot(name),
        !crate::paths::is_dot_dot(name),
    ensures
        sensitive::is_sensitive_spec(dir1 + seq![47u8] + name) == sensitive::is_sensitive_spec(
            dir2 + seq![47u8] + name,
        ),
        shell_scripts::is_shell_script_spec(dir1 + seq![47u8] + name)
            == shell_scripts::is_shell_script_spec(dir2 + seq![47u8] + name),
        executable_source::is_source_file_spec(dir1 + seq![47u8] + name)
            == executable_source::is_source_file_spec(dir2 + seq![47u8] + name),
{
    crate::paths::law_file_name_of_join(dir1, name);
    crate::paths::law_file_name_of_join(dir2, name);
    law_checks_read_file_name_only(dir1 + seq![47u8] + name, dir2 + seq![47u8] + name, 0);
}

/// The one-element list holding what `o` holds, or the empty list.
pub open spec fn opt_seq<A>(o: Option<A>) -> Seq<A> {
    match o {
        Some(a) => seq![a],
        None => seq![],
    }
}

/// The issues of one file, in the order the checks run: shell script,
/// sensitive file, executable source file.
pub open spec fn file_issues(path: Seq<u8>, mode: Option<u32>) -> Seq<IssueView> {
    opt_seq(shell_scripts::check_spec(path, mode)) + opt_seq(sensitive::check_spec(path, mode))
        + opt_seq(executable_source::check_spec(path, mode))
}

/// The issues of all files: those of each file in turn, in the order of the
/// files.
pub open spec fn run_all_spec(files: Seq<FileEntry>) -> Seq<IssueView>
    decreases files.len(),
{
    if files.len() == 0 {
        seq![]
    } else {
        run_all_spec(files.drop_last()) + file_issues(files.last().path@, files.last().mode)
    }
}

/// Run every check against every file and collect all issues.
pub fn run_all(files: &[FileEntry]) -> (r: Vec<Issue>)
    ensures
        issues_view(r@) == run_all_spec(files@),
{
    let mut issues: Vec<Issue> = Vec::new();
    let mut i: usize = 0;
    while i < files.len()
        invariant
            i <= files@.len(),
            issues_view(issues@) == run_all_spec(files@.take(i as int)),
        decreases files@.len() - i,
    {
        let file = &files[i];
        let ghost before = issues@;
        let a = shell_scripts::check(file.path.as_slice(), file.mode);
        if let Some(issue) = a {
            issues.push(issue);
        }
        let b = sensitive::check(file.path.as_slice(), file.mode);
        if let Some(issue) = b {
            issues.push(issue);
        }
        let c = executable_source::check(file.path.as_slice(), file.mode);
        if let Some(issue) = c {
            issues.push(issue);
        }
        proof {
            let t = files@.take(i + 1);
            assert(t.drop_last() =~= files@.take(i as int));
            assert(t.last() == files@[i as int]);
            assert(issues@ =~= before + opt_seq(a) + opt_seq(b) + opt_seq(c));
            assert(issues_view(opt_seq(a)) =~= opt_seq(issue_opt_view(a)));
            assert(issues_view(opt_seq(b)) =~= opt_seq(issue_opt_view(b)));
            assert(issues_view(opt_seq(c)) =~= opt_seq(issue_opt_view(c)));
            assert(issues_view(issues@) =~= issues_view(before) + issues_view(opt_seq(a))
                + issues_view(opt_seq(b)) + issues_view(opt_seq(c)));
        }
        i = i + 1;
    }
    assert(files@.take(files@.len() as int) =~= files@);
    issues
}

} // verus!
