//! margay: audit the permission bits of the files in a project tree.
//!
//! The library decides which files carry a permission problem, which mode
//! would repair each one, how the findings are reported and which exit code
//! the program ends with. Walking the tree, reading modes from disk, changing
//! them and printing stay with the program that uses the library.
use vstd::prelude::*;
use crate::text::{decimal, decimal_count, shown_path, shown_text};

pub mod checks;
pub mod fix;
pub mod paths;
pub mod report;
pub mod text;
pub mod walker;

verus! {

/// The command line: audit file permissions in a project tree.
///
/// margay walks the project (respecting .gitignore) and flags shell scripts
/// missing the user-execute bit, sensitive files (.env, *.key, *.pem, id_rsa,
/// ...) with permissions looser than 0600, and source files (*.rs, *.py,
/// *.md, ...) marked executable.
pub struct Cli {
    /// Path to scan (defaults to the current directory), as bytes.
    pub path: Option<Vec<u8>>,
    /// Auto-correct all detected issues.
    pub fix: bool,
    /// Emit machine-readable JSON instead of the colored report.
    pub json: bool,
    /// Suppress non-essential output.
    pub quiet: bool,
    /// Print extra detail while scanning.
    pub verbose: bool,
}

/// What the program writes once the checks have run.
#[derive(Clone, Copy, Debug, PartialEq, Eq, Structural)]
pub enum Output {
    /// Apply the fixes and, unless quiet, say how many were made.
    Fix,
    /// Print the JSON report.
    Json,
    /// Print the text report.
    Text,
}

impl Cli {
    /// The path to scan: the one given, else `.`.
    pub fn root(&self) -> (r: Vec<u8>)
        ensures
            r@ == match self.path {
                Some(p) => p@,
                None => seq![46u8],
            },
    {
        match &self.path {
            Some(p) => crate::paths::copy_bytes(p.as_slice(), 0, p.len()),
            None => {
                let mut v: Vec<u8> = Vec::new();
                v.push(46u8);
                assert(v@ =~= seq![46u8]);
                v
            },
        }
    }

    /// What is written after the checks: fixing wins over JSON, JSON over text.
    pub fn output(&self) -> (o: Output)
        ensures
            o == (if self.fix {
                Output::Fix
            } else if self.json {
                Output::Json
            } else {
                Output::Text
            }),
    {
        if self.fix {
            Output::Fix
        } else if self.json {
            Output::Json
        } else {
            Output::Text
        }
    }

    /// Whether the number of files scanned is written (to standard error):
    /// in verbose mode, unless JSON is asked for.
    pub fn reports_scan(&self) -> (r: bool)
        ensures
            r == (self.verbose && !self.json),
    {
        self.verbose && !self.json
    }

    /// Whether the number of fixes is written after fixing: unless quiet.
    pub fn reports_fixes(&self) -> (r: bool)
        ensures
            r == !self.quiet,
    {
        !self.quiet
    }

    /// The exit code: 0 after fixing or when no issue is found, 1 when issues
    /// are found. (A runtime error, such as a missing path, exits with 2.)
    pub fn exit_code(&self, issue_count: usize) -> (code: u8)
        ensures
            code == (if self.fix || issue_count == 0 {
                0u8
            } else {
                1u8
            }),
    {
        if self.fix || issue_count == 0 {
            0
        } else {
            1
        }
    }
}

/// The error reported for a path to scan that does not exist, given the text
/// the path is shown as.
pub fn missing_path_message_shown(shown: &str) -> (s: String)
    ensures
        s@ == "path does not exist: "@ + shown@,
{
    let mut s = String::from_str("path does not exist: ");
    s.append(shown);
    s
}

/// The error reported for a path to scan that does not exist.
pub fn missing_path_message(root: &[u8]) -> (s: String)
    ensures
        s@ == "path does not exist: "@ + shown_text(root@),
{
    let shown = shown_path(root);
    missing_path_message_shown(shown.as_str())
}

/// The note on the number of files scanned.
pub fn scanned_message(files: usize) -> (s: String)
    ensures
        s@ == "margay: scanned "@ + decimal(files as nat) + " files"@,
{
    let mut s = String::from_str("margay: scanned ");
    let n = decimal_count(files);
    s.append(n.as_str());
    s.append(" files");
    s
}

/// The note on the number of issues fixed.
pub fn fixed_message(fixed: usize) -> (s: String)
    ensures
        s@ == "margay: fixed "@ + decimal(fixed as nat) + " issue(s)"@,
{
    let mut s = String::from_str("margay: fixed ");
    let n = decimal_count(fixed);
    s.append(n.as_str());
    s.append(" issue(s)");
    s
}

} // verus!
