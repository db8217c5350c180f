//! Flag shell scripts that are missing the user-execute bit.
use vstd::prelude::*;
use super::{
    ext_lower, ext_lower_spec, fix_mode_for, target_mode, Category, Issue, IssueView,
    issue_opt_view,
};
use crate::paths::copy_bytes;
use crate::text::{push_radix, radix_digits, str_eq};

verus! {

/// The extensions of shell scripts.
pub open spec fn shell_ext(e: Seq<char>) -> bool {
    e == "sh"@ || e == "bash"@ || e == "zsh"@ || e == "fish"@
}

/// A path names a shell script when its lowercase extension is a shell
/// extension.
pub open spec fn is_shell_script_spec(path: Seq<u8>) -> bool {
    match ext_lower_spec(path) {
        Some(e) => shell_ext(e),
        None => false,
    }
}

/// The mode that makes a shell script user-executable.
pub open spec fn shell_fix(mode: u32) -> u32 {
    mode | 0o100u32
}

/// The issue reported for a shell script whose mode is known and lacks the
/// user-execute bit (0o100). Its fix mode is the one mode that repairs every
/// issue of the file.
pub open spec fn check_spec(path: Seq<u8>, mode: Option<u32>) -> Option<IssueView> {
    match mode {
        Some(m) => if is_shell_script_spec(path) && m & 0o100u32 == 0 {
            Some(
                IssueView {
                    path,
                    category: Category::ShellNeedsExec,
                    mode: Some(m),
                    fix_mode: Some(target_mode(path, m)),
                    message: "shell script is not user-executable (mode "@ + radix_digits(
                        m as nat,
                        8,
                    ) + ")"@,
                },
            )
        } else {
            None
        },
        None => None,
    }
}

/// Whether a path names a shell script.
pub fn is_shell_script(path: &[u8]) -> (r: bool)
    ensures
        r == is_shell_script_spec(path@),
{
    match ext_lower(path) {
        Some(ext) => {
            let e = ext.as_str();
            str_eq(e, "sh") || str_eq(e, "bash") || str_eq(e, "zsh") || str_eq(e, "fish")
        },
        None => false,
    }
}

/// Checks one file, given its path and its mode (`None` when unknown).
pub fn check(path: &[u8], mode: Option<u32>) -> (r: Option<Issue>)
    ensures
        issue_opt_view(r) == check_spec(path@, mode),
{
    if !is_shell_script(path) {
        return None;
    }
    let mode = match mode {
        Some(m) => m,
        None => return None,
    };
    if mode & 0o100u32 == 0 {
        let fix_mode = fix_mode_for(path, mode);
        let mut message = String::from_str("shell script is not user-executable (mode ");
        push_radix(&mut message, mode as u64, 8);
        message.append(")");
        let p = copy_bytes(path, 0, path.len());
        assert(p@ =~= path@);
        return Some(
            Issue {
                path: p,
                category: Category::ShellNeedsExec,
                mode: Some(mode),
                fix_mode: Some(fix_mode),
                message,
            },
        );
    }
    None
}


/// A file is reported as a shell script missing the user-execute bit exactly
/// when its lowercase extension is a shell extension and its known mode
/// lacks the 0o100 bit; whatever the other bits are. The issue names the
/// file, the category and the mode, gives the mode in octal in its message,
/// and carries the file's fix mode.
pub proof fn law_shell_check(path: Seq<u8>, mode: Option<u32>)
    ensures
        check_spec(path, mode) is Some <==> (is_shell_script_spec(path) && mode is Some && mode->0
            & 0o100u32 == 0),
        check_spec(path, mode) matches Some(i) ==> {
            &&& i.path == path
            &&& i.category == Category::ShellNeedsExec
            &&& i.mode == mode
            &&& i.fix_mode == Some(target_mode(path, mode->0))
            &&& i.message == "shell script is not user-executable (mode "@ + radix_digits(
                mode->0 as nat,
                8,
            ) + ")"@
        },
{
}

} // verus!
