//! Flag sensitive files with permissions looser than 0o600.
use vstd::prelude::*;
use super::{
    ext_lower, ext_lower_spec, fix_mode_for, name_lower, name_lower_spec, target_mode, Category,
    Issue, IssueView, issue_opt_view,
};
use crate::paths::copy_bytes;
use crate::text::{push_radix, radix_digits, starts_with, str_eq, str_starts_with};

verus! {

/// The file names of private keys.
pub open spec fn sensitive_name(n: Seq<char>) -> bool {
    n == "id_rsa"@ || n == "id_ed25519"@ || n == "id_dsa"@ || n == "id_ecdsa"@
}

/// The extensions of keys and certificates.
pub open spec fn sensitive_ext(e: Seq<char>) -> bool {
    e == "key"@ || e == "pem"@ || e == "crt"@ || e == "pfx"@
}

/// A file is sensitive when its lowercase name is a private key's name,
/// `.env` or begins with `.env.`, or when its lowercase extension is that of a
/// key or certificate.
pub open spec fn is_sensitive_spec(path: Seq<u8>) -> bool {
    (match name_lower_spec(path) {
        Some(n) => sensitive_name(n) || n == ".env"@ || starts_with(n, ".env."@),
        None => false,
    }) || (match ext_lower_spec(path) {
        Some(e) => sensitive_ext(e),
        None => false,
    })
}

/// The mode that closes a sensitive file to group and others: the special
/// bits (setuid, setgid, sticky) kept, the owner given read and write only.
pub open spec fn sensitive_fix(mode: u32) -> u32 {
    ((mode & !0o077u32 & 0o7777u32) & !0o177u32) | 0o600u32
}

/// The issue reported for a sensitive file whose mode is known and has a
/// group or other bit set (0o077). Its fix mode is the one mode that repairs
/// every issue of the file.
pub open spec fn check_spec(path: Seq<u8>, mode: Option<u32>) -> Option<IssueView> {
    match mode {
        Some(m) => if is_sensitive_spec(path) && m & 0o077u32 != 0 {
            Some(
                IssueView {
                    path,
                    category: Category::SensitiveTooOpen,
                    mode: Some(m),
                    fix_mode: Some(target_mode(path, m)),
                    message: "sensitive file is group/world accessible (mode "@ + radix_digits(
                        m as nat,
                        8,
                    ) + ")"@,
                },
            )
        } else {
            None
        },
        None => None,
    }
}

/// Whether a path names a sensitive file.
pub fn is_sensitive(path: &[u8]) -> (r: bool)
    ensures
        r == is_sensitive_spec(path@),
{
    if let Some(name) = name_lower(path) {
        let n = name.as_str();
        if str_eq(n, "id_rsa") || str_eq(n, "id_ed25519") || str_eq(n, "id_dsa") || str_eq(
            n,
            "id_ecdsa",
        ) {
            return true;
        }
        if str_eq(n, ".env") || str_starts_with(n, ".env.") {
            return true;
        }
    }
    if let Some(ext) = ext_lower(path) {
        let e = ext.as_str();
        if str_eq(e, "key") || str_eq(e, "pem") || str_eq(e, "crt") || str_eq(e, "pfx") {
            return true;
        }
    }
    false
}

/// Checks one file, given its path and its mode (`None` when unknown).
pub fn check(path: &[u8], mode: Option<u32>) -> (r: Option<Issue>)
    ensures
        issue_opt_view(r) == check_spec(path@, mode),
{
    if !is_sensitive(path) {
        return None;
    }
    let mode = match mode {
        Some(m) => m,
        None => return None,
    };
    // Anything outside the owner-rwx bits (0o700) is "too open".
    if mode & 0o077u32 != 0 {
        let fix_mode = fix_mode_for(path, mode);
        let mut message = String::from_str("sensitive file is group/world accessible (mode ");
        push_radix(&mut message, mode as u64, 8);
        message.append(")");
        let p = copy_bytes(path, 0, path.len());
        assert(p@ =~= path@);
        return Some(
            Issue {
                path: p,
                category: Category::SensitiveTooOpen,
                mode: Some(mode),
                fix_mode: Some(fix_mode),
                message,
            },
        );
    }
    None
}


/// A file is reported as a sensitive file too open exactly when it is
/// sensitive and its known mode has any group or other bit (0o077) set,
/// whatever those bits are. The issue names the file, the category and the
/// mode, gives the mode in octal in its message, and carries the file's fix
/// mode.
pub proof fn law_sensitive_check(path: Seq<u8>, mode: Option<u32>)
    ensures
        check_spec(path, mode) is Some <==> (is_sensitive_spec(path) && mode is Some && mode->0
            & 0o077u32 != 0),
        check_spec(path, mode) matches Some(i) ==> {
            &&& i.path == path
            &&& i.category == Category::SensitiveTooOpen
            &&& i.mode == mode
            &&& i.fix_mode == Some(target_mode(path, mode->0))
            &&& i.message == "sensitive file is group/world accessible (mode "@ + radix_digits(
                mode->0 as nat,
                8,
            ) + ")"@
        },
{
}

} // verus!
