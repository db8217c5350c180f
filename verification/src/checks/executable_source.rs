//! Flag source files that are marked user-executable.
use vstd::prelude::*;
use super::{
    ext_lower, ext_lower_spec, fix_mode_for, target_mode, Category, Issue, IssueView,
    issue_opt_view,
};
use crate::paths::copy_bytes;
use crate::text::{push_radix, radix_digits, str_eq};

verus! {

/// The extensions of source and text files, which should not be executable.
pub open spec fn source_ext(e: Seq<char>) -> bool {
    e == "rs"@ || e == "go"@ || e == "py"@ || e == "ts"@ || e == "js"@ || e == "tsx"@ || e
        == "jsx"@ || e == "json"@ || e == "toml"@ || e == "yaml"@ || e == "yml"@ || e == "md"@
        || e == "txt"@ || e == "html"@ || e == "css"@
}

/// A path names a source file when its lowercase extension is a source
/// extension.
pub open spec fn is_source_file_spec(path: Seq<u8>) -> bool {
    match ext_lower_spec(path) {
        Some(e) => source_ext(e),
        None => false,
    }
}

/// The mode with every execute bit (0o111) cleared.
pub open spec fn source_fix(mode: u32) -> u32 {
    mode & !0o111u32 & 0o7777u32
}

/// The issue reported for a source file whose mode is known and has an
/// execute bit set. Its fix mode is the one mode that repairs every issue of
/// the file.
pub open spec fn check_spec(path: Seq<u8>, mode: Option<u32>) -> Option<IssueView> {
    match mode {
        Some(m) => if is_source_file_spec(path) && m & 0o111u32 != 0 {
            Some(
                IssueView {
                    path,
                    category: Category::SourceExecutable,
                    mode: Some(m),
                    fix_mode: Some(target_mode(path, m)),
                    message: "source file is marked executable (mode "@ + radix_digits(
                        m as nat,
                        8,
                    ) + ")"@,
                },
            )
        } else {
            None
        },
        None => None,
    }
}

fn is_source_ext(e: &str) -> (r: bool)
    ensures
        r == source_ext(e@),
{
    str_eq(e, "rs") || str_eq(e, "go") || str_eq(e, "py") || str_eq(e, "ts") || str_eq(e, "js")
        || str_eq(e, "tsx") || str_eq(e, "jsx") || str_eq(e, "json") || str_eq(e, "toml")
        || str_eq(e, "yaml") || str_eq(e, "yml") || str_eq(e, "md") || str_eq(e, "txt") || str_eq(
        e,
        "html",
    ) || str_eq(e, "css")
}

/// Whether a path names a source file.
pub fn is_source_file(path: &[u8]) -> (r: bool)
    ensures
        r == is_source_file_spec(path@),
{
    match ext_lower(path) {
        Some(ext) => is_source_ext(ext.as_str()),
        None => false,
    }
}

/// Checks one file, given its path and its mode (`None` when unknown).
pub fn check(path: &[u8], mode: Option<u32>) -> (r: Option<Issue>)
    ensures
        issue_opt_view(r) == check_spec(path@, mode),
{
    if !is_source_file(path) {
        return None;
    }
    let mode = match mode {
        Some(m) => m,
        None => return None,
    };
    if mode & 0o111u32 != 0 {
        let fix_mode = fix_mode_for(path, mode);
        let mut message = String::from_str("source file is marked executable (mode ");
        push_radix(&mut message, mode as u64, 8);
        message.append(")");
        let p = copy_bytes(path, 0, path.len());
        assert(p@ =~= path@);
        return Some(
            Issue {
                path: p,
                category: Category::SourceExecutable,
                mode: Some(mode),
                fix_mode: Some(fix_mode),
                message,
            },
        );
    }
    None
}


/// A file is reported as an executable source file exactly when its
/// lowercase extension is a source extension and its known mode has any
/// execute bit (0o111) set, whatever its other bits are. The issue names the
/// file, the category and the mode, gives the mode in octal in its message,
/// and carries the file's fix mode.
pub proof fn law_source_check(path: Seq<u8>, mode: Option<u32>)
    ensures
        check_spec(path, mode) is Some <==> (is_source_file_spec(path) && mode is Some && mode->0
            & 0o111u32 != 0),
        check_spec(path, mode) matches Some(i) ==> {
            &&& i.path == path
            &&& i.category == Category::SourceExecutable
            &&& i.mode == mode
            &&& i.fix_mode == Some(target_mode(path, mode->0))
            &&& i.message == "source file is marked executable (mode "@ + radix_digits(
                mode->0 as nat,
                8,
            ) + ")"@
        },
{
}

} // verus!
