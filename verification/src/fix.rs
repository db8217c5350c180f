//! Auto-correct detected permission issues.
//!
//! Fixing is a list of mode changes made in order; the program performs them
//! and stops at the first one that fails.
use vstd::prelude::*;
use crate::checks::{
    ext_lower_spec, file_issues, issues_view, run_all_spec, target_mode, FileEntry, Issue,
    IssueView,
};
use crate::checks::executable_source::{is_source_file_spec, source_ext, source_fix};
use crate::checks::sensitive::{is_sensitive_spec, sensitive_fix};
use crate::checks::shell_scripts::{is_shell_script_spec, shell_ext, shell_fix};
use crate::paths::copy_bytes;

verus! {

/// One mode change: set the permission mode of the file at `path` to `mode`.
#[derive(Debug, PartialEq, Eq)]
pub struct ModeChange {
    pub path: Vec<u8>,
    pub mode: u32,
}

/// A list of mode changes as plain values.
pub open spec fn changes_view(v: Seq<ModeChange>) -> Seq<(Seq<u8>, u32)> {
    v.map_values(|c: ModeChange| (c.path@, c.mode))
}

/// The mode changes that fixing a list of issues makes, in order: one for
/// each issue that has a fix mode, setting that mode on its path. Issues
/// without a fix mode (no Unix permissions) are skipped.
pub open spec fn fix_plan(issues: Seq<IssueView>) -> Seq<(Seq<u8>, u32)>
    decreases issues.len(),
{
    if issues.len() == 0 {
        seq![]
    } else {
        fix_plan(issues.drop_last()) + match issues.last().fix_mode {
            Some(f) => seq![(issues.last().path, f)],
            None => seq![],
        }
    }
}

/// The number of issues that carry a fix mode.
pub open spec fn fixable_count(issues: Seq<IssueView>) -> nat
    decreases issues.len(),
{
    if issues.len() == 0 {
        0
    } else {
        fixable_count(issues.drop_last()) + if issues.last().fix_mode is Some {
            1nat
        } else {
            0nat
        }
    }
}

/// The target mode of one issue: `None` when it has no fix mode, in which
/// case fixing it changes nothing and it does not count as fixed.
pub fn apply_one(issue: &Issue) -> (r: Option<ModeChange>)
    ensures
        match r {
            Some(c) => issue.fix_mode == Some(c.mode) && c.path@ == issue.path@,
            None => issue.fix_mode is None,
        },
{
    match issue.fix_mode {
        Some(target) => {
            let p = copy_bytes(issue.path.as_slice(), 0, issue.path.len());
            assert(p@ =~= issue.path@);
            Some(ModeChange { path: p, mode: target })
        },
        None => None,
    }
}

/// The mode changes that apply the recommended `fix_mode` of every issue, in
/// the order of the issues. When all of them succeed, the number of issues
/// fixed is the length of this list.
pub fn apply(issues: &[Issue]) -> (r: Vec<ModeChange>)
    ensures
        changes_view(r@) == fix_plan(issues_view(issues@)),
        r@.len() == fixable_count(issues_view(issues@)),
{
    let mut changes: Vec<ModeChange> = Vec::new();
    let mut i: usize = 0;
    while i < issues.len()
        invariant
            i <= issues@.len(),
            changes_view(changes@) == fix_plan(issues_view(issues@.take(i as int))),
            changes@.len() == fixable_count(issues_view(issues@.take(i as int))),
        decreases issues@.len() - i,
    {
        let ghost before = changes@;
        let c = apply_one(&issues[i]);
        if let Some(change) = c {
            changes.push(change);
        }
        proof {
            let t = issues_view(issues@.take(i + 1));
            assert(t.drop_last() =~= issues_view(issues@.take(i as int)));
            assert(t.last() == issues@[i as int]@);
            assert(changes_view(changes@) =~= changes_view(before) + match c {
                Some(ch) => seq![(ch.path@, ch.mode)],
                None => seq![],
            });
        }
        i = i + 1;
    }
    assert(issues@.take(issues@.len() as int) =~= issues@);
    changes
}

/// No extension is both a shell script's and a source file's.
pub proof fn law_shell_and_source_exclusive(e: Seq<char>)
    ensures
        !(shell_ext(e) && source_ext(e)),
{
    reveal_strlit("sh");
    reveal_strlit("bash");
    reveal_strlit("zsh");
    reveal_strlit("fish");
    reveal_strlit("rs");
    reveal_strlit("go");
    reveal_strlit("py");
    reveal_strlit("ts");
    reveal_strlit("js");
    reveal_strlit("tsx");
    reveal_strlit("jsx");
    reveal_strlit("json");
    reveal_strlit("toml");
    reveal_strlit("yaml");
    reveal_strlit("yml");
    reveal_strlit("md");
    reveal_strlit("txt");
    reveal_strlit("html");
    reveal_strlit("css");
    if shell_ext(e) && source_ext(e) {
        assert(e.len() >= 2);
        assert(e[0] == 's' || e[0] == 'b' || e[0] == 'z' || e[0] == 'f');
        assert(e[0] == 'r' || e[0] == 'g' || e[0] == 'p' || e[0] == 't' || e[0] == 'j' || e[0]
            == 'y' || e[0] == 'm' || e[0] == 'h' || e[0] == 'c');
    }
}

proof fn lemma_target_bits(m: u32)
    ensures
        sensitive_fix(m) & 0o077u32 == 0,
        sensitive_fix(m) & 0o7000u32 == m & 0o7000u32,
        sensitive_fix(m) & 0o777u32 == 0o600u32,
        m <= 0o7777u32 ==> sensitive_fix(m) <= 0o7777u32,
        shell_fix(m) & 0o100u32 != 0,
        shell_fix(m) & 0o077u32 == m & 0o077u32,
        shell_fix(m) & 0o7000u32 == m & 0o7000u32,
        m <= 0o7777u32 ==> shell_fix(m) <= 0o7777u32,
        source_fix(m) & 0o111u32 == 0,
        m & 0o077u32 == 0 ==> source_fix(m) & 0o077u32 == 0,
        source_fix(m) & 0o7000u32 == m & 0o7000u32,
        source_fix(m) <= 0o7777u32,
        source_fix(m) == m & 0o7666u32,
{
    assert((((m & !0o077u32 & 0o7777u32) & !0o177u32) | 0o600u32) & 0o077u32 == 0)
        by (bit_vector);
    assert((((m & !0o077u32 & 0o7777u32) & !0o177u32) | 0o600u32) & 0o7000u32 == m & 0o7000u32)
        by (bit_vector);
    assert((((m & !0o077u32 & 0o7777u32) & !0o177u32) | 0o600u32) & 0o777u32 == 0o600u32)
        by (bit_vector);
    assert(m <= 0o7777u32 ==> (((m & !0o077u32 & 0o7777u32) & !0o177u32) | 0o600u32)
        <= 0o7777u32) by (bit_vector);
    assert((m | 0o100u32) & 0o100u32 != 0) by (bit_vector);
    assert((m | 0o100u32) & 0o077u32 == m & 0o077u32) by (bit_vector);
    assert((m | 0o100u32) & 0o7000u32 == m & 0o7000u32) by (bit_vector);
    assert(m <= 0o7777u32 ==> (m | 0o100u32) <= 0o7777u32) by (bit_vector);
    assert((m & !0o111u32 & 0o7777u32) & 0o111u32 == 0) by (bit_vector);
    assert(m & 0o077u32 == 0 ==> (m & !0o111u32 & 0o7777u32) & 0o077u32 == 0) by (bit_vector);
    assert((m & !0o111u32 & 0o7777u32) & 0o7000u32 == m & 0o7000u32) by (bit_vector);
    assert((m & !0o111u32 & 0o7777u32) <= 0o7777u32) by (bit_vector);
    assert(m & !0o111u32 & 0o7777u32 == m & 0o7666u32) by (bit_vector);
}

/// The fix mode of a file satisfies every check that names the file: a
/// sensitive file is closed to group and others, a shell script is
/// user-executable, a source file has no execute bit. It keeps the setuid,
/// setgid and sticky bits, stays within twelve bits when the mode does, and
/// no check finds an issue on it.
pub proof fn law_target_mode_clears(path: Seq<u8>, mode: u32)
    ensures
        is_sensitive_spec(path) ==> target_mode(path, mode) & 0o077u32 == 0,
        is_shell_script_spec(path) ==> target_mode(path, mode) & 0o100u32 != 0,
        is_source_file_spec(path) ==> target_mode(path, mode) & 0o111u32 == 0,
        target_mode(path, mode) & 0o7000u32 == mode & 0o7000u32,
        mode <= 0o7777u32 ==> target_mode(path, mode) <= 0o7777u32,
        file_issues(path, Some(target_mode(path, mode))) == Seq::<IssueView>::empty(),
{
    let t1 = if is_sensitive_spec(path) && mode & 0o077u32 != 0 {
        sensitive_fix(mode)
    } else {
        mode
    };
    let t2 = if is_shell_script_spec(path) && t1 & 0o100u32 == 0 {
        shell_fix(t1)
    } else {
        t1
    };
    lemma_target_bits(mode);
    lemma_target_bits(t1);
    lemma_target_bits(t2);
    if let Some(e) = ext_lower_spec(path) {
        law_shell_and_source_exclusive(e);
    }
    let t = target_mode(path, mode);
    assert(file_issues(path, Some(t)) =~= Seq::<IssueView>::empty());
}

/// The fix mode changes only the bits that the checks naming the file find
/// at fault:
/// - a file no check names keeps its mode;
/// - a shell script gains the user-execute bit (0o100) and nothing else;
/// - a source file loses its execute bits (0o111), the bits above twelve
///   dropped;
/// - a sensitive file open to group or others keeps its setuid, setgid and
///   sticky bits and becomes 0600 (0700 when it is also a shell script);
/// - a sensitive file already closed is treated as the other checks say.
pub proof fn law_target_mode_formula(path: Seq<u8>, m: u32)
    ensures
        !is_sensitive_spec(path) && !is_shell_script_spec(path) && !is_source_file_spec(path)
            ==> target_mode(path, m) == m,
        !is_sensitive_spec(path) && is_shell_script_spec(path) ==> target_mode(path, m) == (if m
            & 0o100u32 == 0 {
            m | 0o100u32
        } else {
            m
        }),
        !is_sensitive_spec(path) && is_source_file_spec(path) ==> target_mode(path, m) == (if m
            & 0o111u32 != 0 {
            m & 0o7666u32
        } else {
            m
        }),
        is_sensitive_spec(path) && !is_shell_script_spec(path) && !is_source_file_spec(path)
            ==> target_mode(path, m) == (if m & 0o077u32 != 0 {
            (m & 0o7000u32) | 0o600u32
        } else {
            m
        }),
        is_sensitive_spec(path) && is_shell_script_spec(path) ==> target_mode(path, m) == (if m
            & 0o077u32 != 0 {
            (m & 0o7000u32) | 0o700u32
        } else if m & 0o100u32 == 0 {
            m | 0o100u32
        } else {
            m
        }),
        is_sensitive_spec(path) && is_source_file_spec(path) ==> target_mode(path, m) == (if m
            & 0o077u32 != 0 {
            (m & 0o7000u32) | 0o600u32
        } else if m & 0o111u32 != 0 {
            m & 0o7666u32
        } else {
            m
        }),
{
    if let Some(e) = ext_lower_spec(path) {
        law_shell_and_source_exclusive(e);
    }
    lemma_target_bits(m);
    assert((((m & !0o077u32 & 0o7777u32) & !0o177u32) | 0o600u32) == (m & 0o7000u32) | 0o600u32)
        by (bit_vector);
    assert((m & 0o7000u32) | 0o600u32 | 0o100u32 == (m & 0o7000u32) | 0o700u32) by (bit_vector);
    assert(((m & 0o7000u32) | 0o600u32) & 0o100u32 == 0) by (bit_vector);
    assert(((m & 0o7000u32) | 0o600u32) & 0o111u32 == 0) by (bit_vector);
}

/// A file after its issues are fixed: it carries the fix mode of its last
/// issue, the one set last, or its old mode when it had none.
pub open spec fn fixed_entry(f: FileEntry) -> FileEntry {
    let issues = file_issues(f.path@, f.mode);
    FileEntry {
        path: f.path,
        mode: if issues.len() > 0 {
            issues.last().fix_mode
        } else {
            f.mode
        },
    }
}

/// All issues of a file carry the same fix mode, the file's target mode.
pub proof fn law_one_fix_mode_per_file(path: Seq<u8>, mode: u32)
    ensures
        forall|k: int|
            0 <= k < file_issues(path, Some(mode)).len() ==> (#[trigger] file_issues(
                path,
                Some(mode),
            )[k]).fix_mode == Some(target_mode(path, mode)),
{
}

/// Running the checks again after fixing finds nothing: the fixes of the
/// issues of a file all set the same mode, which satisfies every check.
pub proof fn law_second_run_clean(files: Seq<FileEntry>)
    ensures
        run_all_spec(files.map_values(|f: FileEntry| fixed_entry(f))) == Seq::<IssueView>::empty(),
    decreases files.len(),
{
    let fixed = files.map_values(|f: FileEntry| fixed_entry(f));
    if files.len() > 0 {
        let rest = files.drop_last();
        law_second_run_clean(rest);
        assert(fixed.drop_last() =~= rest.map_values(|f: FileEntry| fixed_entry(f)));
        let last = files.last();
        let issues = file_issues(last.path@, last.mode);
        if issues.len() > 0 {
            let m = last.mode->0;
            law_one_fix_mode_per_file(last.path@, m);
            law_target_mode_clears(last.path@, m);
            assert(issues[issues.len() - 1].fix_mode == Some(target_mode(last.path@, m)));
        }
        assert(fixed.last() == fixed_entry(last));
        assert(file_issues(fixed.last().path@, fixed.last().mode) =~= Seq::<IssueView>::empty());
        assert(run_all_spec(fixed) =~= Seq::<IssueView>::empty());
    }
}


/// The mode of the file at `path` after the changes of `plan` are made in
/// order: the mode of the last change to that path, or `old` if none.
pub open spec fn mode_after(plan: Seq<(Seq<u8>, u32)>, path: Seq<u8>, old: Option<u32>) -> Option<
    u32,
>
    decreases plan.len(),
{
    if plan.len() == 0 {
        old
    } else if plan.last().0 == path {
        Some(plan.last().1)
    } else {
        mode_after(plan.drop_last(), path, old)
    }
}

/// The files with the modes they have after the changes of `plan`.
pub open spec fn after_changes(files: Seq<FileEntry>, plan: Seq<(Seq<u8>, u32)>) -> Seq<FileEntry> {
    files.map_values(
        |f: FileEntry| FileEntry { path: f.path, mode: mode_after(plan, f.path@, f.mode) },
    )
}

proof fn lemma_fix_plan_concat(a: Seq<IssueView>, b: Seq<IssueView>)
    ensures
        fix_plan(a + b) == fix_plan(a) + fix_plan(b),
    decreases b.len(),
{
    if b.len() == 0 {
        assert(a + b =~= a);
        assert(fix_plan(a) + fix_plan(b) =~= fix_plan(a));
    } else {
        assert((a + b).drop_last() =~= a + b.drop_last());
        lemma_fix_plan_concat(a, b.drop_last());
        assert((a + b).last() == b.last());
        let tail = match b.last().fix_mode {
            Some(f) => seq![(b.last().path, f)],
            None => Seq::<(Seq<u8>, u32)>::empty(),
        };
        assert(fix_plan(a) + fix_plan(b.drop_last()) + tail =~= fix_plan(a) + (fix_plan(
            b.drop_last(),
        ) + tail));
    }
}

proof fn lemma_mode_after_concat(
    p1: Seq<(Seq<u8>, u32)>,
    p2: Seq<(Seq<u8>, u32)>,
    path: Seq<u8>,
    old: Option<u32>,
)
    ensures
        mode_after(p1 + p2, path, old) == mode_after(p2, path, mode_after(p1, path, old)),
    decreases p2.len(),
{
    if p2.len() == 0 {
        assert(p1 + p2 =~= p1);
    } else {
        assert((p1 + p2).drop_last() =~= p1 + p2.drop_last());
        assert((p1 + p2).last() == p2.last());
        lemma_mode_after_concat(p1, p2.drop_last(), path, old);
    }
}

proof fn lemma_plan_other_path(issues: Seq<IssueView>, path: Seq<u8>, old: Option<u32>)
    requires
        forall|k: int| 0 <= k < issues.len() ==> (#[trigger] issues[k]).path != path,
    ensures
        mode_after(fix_plan(issues), path, old) == old,
    decreases issues.len(),
{
    if issues.len() > 0 {
        let init = issues.drop_last();
        assert forall|k: int| 0 <= k < init.len() implies (#[trigger] init[k]).path != path by {
            assert(init[k] == issues[k]);
        }
        lemma_plan_other_path(init, path, old);
        let tail = match issues.last().fix_mode {
            Some(f) => seq![(issues.last().path, f)],
            None => Seq::<(Seq<u8>, u32)>::empty(),
        };
        assert(issues.last() == issues[issues.len() - 1]);
        assert(issues.last().path != path);
        assert(fix_plan(issues) == fix_plan(init) + tail);
        lemma_mode_after_concat(fix_plan(init), tail, path, old);
        assert(mode_after(fix_plan(init), path, old) == old);
        if tail.len() > 0 {
            assert(tail.drop_last() =~= Seq::<(Seq<u8>, u32)>::empty());
            assert(tail.last().0 != path);
            assert(mode_after(tail.drop_last(), path, old) == old);
            assert(mode_after(tail, path, old) == old);
        } else {
            assert(mode_after(tail, path, old) == old);
        }
    }
}

proof fn lemma_plan_same_target(issues: Seq<IssueView>, path: Seq<u8>, t: u32, old: Option<u32>)
    requires
        forall|k: int|
            0 <= k < issues.len() ==> (#[trigger] issues[k]).path == path && issues[k].fix_mode
                == Some(t),
    ensures
        mode_after(fix_plan(issues), path, old) == if issues.len() > 0 {
            Some(t)
        } else {
            old
        },
    decreases issues.len(),
{
    if issues.len() > 0 {
        let init = issues.drop_last();
        assert forall|k: int| 0 <= k < init.len() implies (#[trigger] init[k]).path == path
            && init[k].fix_mode == Some(t) by {
            assert(init[k] == issues[k]);
        }
        lemma_plan_same_target(init, path, t, old);
        assert(issues.last() == issues[issues.len() - 1]);
        let tail = seq![(path, t)];
        assert(fix_plan(issues) == fix_plan(init) + tail);
        lemma_mode_after_concat(fix_plan(init), tail, path, old);
        assert(tail.drop_last() =~= Seq::<(Seq<u8>, u32)>::empty());
    }
}

proof fn lemma_file_issues_paths(path: Seq<u8>, mode: Option<u32>)
    ensures
        forall|k: int|
            0 <= k < file_issues(path, mode).len() ==> (#[trigger] file_issues(path, mode)[k]).path
                == path,
{
}

proof fn lemma_run_all_paths(files: Seq<FileEntry>)
    ensures
        forall|k: int|
            0 <= k < run_all_spec(files).len() ==> exists|j: int|
                0 <= j < files.len() && (#[trigger] run_all_spec(files)[k]).path == files[j].path@,
    decreases files.len(),
{
    if files.len() > 0 {
        let init = files.drop_last();
        lemma_run_all_paths(init);
        let last = files.last();
        lemma_file_issues_paths(last.path@, last.mode);
        let a = run_all_spec(init);
        let b = file_issues(last.path@, last.mode);
        assert forall|k: int| 0 <= k < run_all_spec(files).len() implies exists|j: int|
            0 <= j < files.len() && (#[trigger] run_all_spec(files)[k]).path == files[j].path@ by {
            if k < a.len() {
                assert(run_all_spec(files)[k] == a[k]);
                let j = choose|j: int| 0 <= j < init.len() && a[k].path == init[j].path@;
                assert(init[j] == files[j]);
            } else {
                assert(run_all_spec(files)[k] == b[k - a.len()]);
                assert(files[files.len() - 1] == last);
            }
        }
    }
}

proof fn lemma_mode_after_fix(files: Seq<FileEntry>, i: int)
    requires
        0 <= i < files.len(),
        forall|a: int, b: int|
            0 <= a < b < files.len() ==> (#[trigger] files[a]).path@ != (#[trigger] files[b]).path@,
    ensures
        mode_after(fix_plan(run_all_spec(files)), files[i].path@, files[i].mode) == fixed_entry(
            files[i],
        ).mode,
    decreases files.len(),
{
    let init = files.drop_last();
    let last = files.last();
    let f = files[i];
    let a = run_all_spec(init);
    let b = file_issues(last.path@, last.mode);
    assert(run_all_spec(files) == a + b);
    lemma_fix_plan_concat(a, b);
    lemma_mode_after_concat(fix_plan(a), fix_plan(b), f.path@, f.mode);
    lemma_file_issues_paths(last.path@, last.mode);
    if i == files.len() - 1 {
        lemma_run_all_paths(init);
        assert forall|k: int| 0 <= k < a.len() implies (#[trigger] a[k]).path != f.path@ by {
            let j = choose|j: int| 0 <= j < init.len() && a[k].path == init[j].path@;
            assert(init[j] == files[j]);
        }
        lemma_plan_other_path(a, f.path@, f.mode);
        if let Some(m) = last.mode {
            law_one_fix_mode_per_file(last.path@, m);
            lemma_plan_same_target(b, last.path@, target_mode(last.path@, m), f.mode);
        } else {
            assert(b.len() == 0);
            assert(b =~= Seq::<IssueView>::empty());
            assert(fix_plan(b) =~= Seq::<(Seq<u8>, u32)>::empty());
        }
    } else {
        assert forall|x: int, y: int|
            0 <= x < y < init.len() implies (#[trigger] init[x]).path@ != (#[trigger] init[y]).path@ by {
            assert(init[x] == files[x] && init[y] == files[y]);
        }
        assert(init[i] == f);
        lemma_mode_after_fix(init, i);
        assert(f.path@ != last.path@);
        assert forall|k: int| 0 <= k < b.len() implies (#[trigger] b[k]).path != f.path@ by {}
        lemma_plan_other_path(b, f.path@, fixed_entry(f).mode);
    }
}

/// After the changes that `apply` lists for the issues of `run_all` are made
/// in order, running the checks again finds nothing (for a list of files
/// that names no path twice, as a walk gives it).
pub proof fn law_second_run_after_apply(files: Seq<FileEntry>)
    requires
        forall|a: int, b: int|
            0 <= a < b < files.len() ==> (#[trigger] files[a]).path@ != (#[trigger] files[b]).path@,
    ensures
        run_all_spec(after_changes(files, fix_plan(run_all_spec(files))))
            == Seq::<IssueView>::empty(),
{
    let plan = fix_plan(run_all_spec(files));
    let after = after_changes(files, plan);
    let fixed = files.map_values(|f: FileEntry| fixed_entry(f));
    assert forall|i: int| 0 <= i < files.len() implies after[i] == fixed[i] by {
        lemma_mode_after_fix(files, i);
    }
    assert(after =~= fixed);
    law_second_run_clean(files);
}

} // verus!
