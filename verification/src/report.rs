//! The text report: which lines are printed, in which order, and how each
//! part of a line is styled. The program that prints it maps each style to
//! terminal colours.
use vstd::prelude::*;
use crate::checks::{Category, Issue, IssueView, issues_view};
use crate::paths::copy_bytes;
use crate::walker::{compare_paths, components, law_path_order_zero_iff_same_components};
use crate::text::{decimal, decimal_count, shown_path, shown_text, octal4, octal_mode};

verus! {

/// How a part of a line is shown.
#[derive(Clone, Copy, Debug, PartialEq, Eq, Structural)]
pub enum Style {
    /// Unstyled text.
    Plain,
    /// A category heading: bold and underlined.
    Heading,
    /// The `+x` marker: green and bold.
    ShellMarker,
    /// The `!!` marker: red and bold.
    SensitiveMarker,
    /// The `-x` marker: yellow and bold.
    SourceMarker,
    /// A file's path: cyan.
    Path,
    /// The current mode: yellow.
    Mode,
    /// The mode a fix would set: dimmed.
    FixMode,
    /// The all-clear mark: green and bold.
    Success,
    /// The issues-found mark: red and bold.
    Failure,
}

/// A part of a line: its text and its style.
#[derive(Debug, PartialEq, Eq)]
pub struct Segment {
    pub text: String,
    pub style: Style,
}

/// A line as plain values.
pub open spec fn line_view(line: Seq<Segment>) -> Seq<(Seq<char>, Style)> {
    line.map_values(|s: Segment| (s.text@, s.style))
}

/// Lines as plain values.
pub open spec fn lines_view(lines: Seq<Vec<Segment>>) -> Seq<Seq<(Seq<char>, Style)>> {
    lines.map_values(|l: Vec<Segment>| line_view(l@))
}

/// The suffix that makes a noun plural for a count: none for one, `s` otherwise.
pub open spec fn plural_text(n: nat) -> Seq<char> {
    if n == 1 {
        ""@
    } else {
        "s"@
    }
}

/// The suffix that makes a noun plural for a count.
pub fn plural(n: usize) -> (s: &'static str)
    ensures
        s@ == plural_text(n as nat),
{
    if n == 1 {
        ""
    } else {
        "s"
    }
}

/// The marker of a category and its style.
pub open spec fn marker(c: Category) -> (Seq<char>, Style) {
    match c {
        Category::ShellNeedsExec => ("+x"@, Style::ShellMarker),
        Category::SensitiveTooOpen => ("!!"@, Style::SensitiveMarker),
        Category::SourceExecutable => ("-x"@, Style::SourceMarker),
    }
}

/// The current mode as shown: four octal digits, or `----` when unknown.
pub open spec fn mode_text(mode: Option<u32>) -> Seq<char> {
    match mode {
        Some(m) => octal4(m as nat),
        None => "----"@,
    }
}

/// The fix mode as shown: an arrow and four octal digits, or nothing.
pub open spec fn fix_text(mode: Option<u32>) -> Seq<char> {
    match mode {
        Some(m) => "→ "@ + octal4(m as nat),
        None => ""@,
    }
}

/// The line listing one issue, its path shown as `shown`: marker, path, mode
/// and fix mode, each after a space, the line indented by two spaces.
pub open spec fn issue_line_shown(i: IssueView, shown: Seq<char>) -> Seq<(Seq<char>, Style)> {
    seq![
        ("  "@, Style::Plain),
        marker(i.category),
        (" "@, Style::Plain),
        (shown, Style::Path),
        (" "@, Style::Plain),
        (mode_text(i.mode), Style::Mode),
        (" "@, Style::Plain),
        (fix_text(i.fix_mode), Style::FixMode),
    ]
}

/// The line listing one issue, its path shown as text: decoded when valid
/// UTF-8, else as `String::from_utf8_lossy` shows its bytes.
pub open spec fn issue_line(i: IssueView) -> Seq<(Seq<char>, Style)> {
    issue_line_shown(i, shown_text(i.path))
}

fn segment(text: String, style: Style) -> (s: Segment)
    ensures
        s.text@ == text@,
        s.style == style,
{
    Segment { text, style }
}

fn marker_for(cat: Category) -> (s: Segment)
    ensures
        (s.text@, s.style) == marker(cat),
{
    match cat {
        Category::ShellNeedsExec => segment(String::from_str("+x"), Style::ShellMarker),
        Category::SensitiveTooOpen => segment(String::from_str("!!"), Style::SensitiveMarker),
        Category::SourceExecutable => segment(String::from_str("-x"), Style::SourceMarker),
    }
}

/// The line that lists one issue, given the text its path is shown as.
pub fn issue_line_with(issue: &Issue, shown_path: String) -> (line: Vec<Segment>)
    ensures
        line_view(line@) == issue_line_shown(issue@, shown_path@),
{
    let mode_str = match issue.mode {
        Some(m) => octal_mode(m),
        None => String::from_str("----"),
    };
    let fix_str = match issue.fix_mode {
        Some(m) => {
            let mut s = String::from_str("→ ");
            let o = octal_mode(m);
            s.append(o.as_str());
            s
        },
        None => String::from_str(""),
    };
    let ghost shown = shown_path@;
    let mut line: Vec<Segment> = Vec::new();
    line.push(segment(String::from_str("  "), Style::Plain));
    line.push(marker_for(issue.category));
    line.push(segment(String::from_str(" "), Style::Plain));
    line.push(segment(shown_path, Style::Path));
    line.push(segment(String::from_str(" "), Style::Plain));
    line.push(segment(mode_str, Style::Mode));
    line.push(segment(String::from_str(" "), Style::Plain));
    line.push(segment(fix_str, Style::FixMode));
    assert(line_view(line@) =~= issue_line_shown(issue@, shown));
    line
}

/// The line that lists one issue.
pub fn issue_line_for(issue: &Issue) -> (line: Vec<Segment>)
    ensures
        line_view(line@) == issue_line(issue@),
{
    issue_line_with(issue, shown_path(issue.path.as_slice()))
}

/// The issues of one category, in their order.
pub open spec fn issues_in(issues: Seq<IssueView>, c: Category) -> Seq<IssueView>
    decreases issues.len(),
{
    if issues.len() == 0 {
        seq![]
    } else if issues.last().category == c {
        issues_in(issues.drop_last(), c).push(issues.last())
    } else {
        issues_in(issues.drop_last(), c)
    }
}

/// Whether text `a` comes strictly before text `b`, characters compared by
/// their code points, a prefix before the longer text.
pub open spec fn text_before(a: Seq<char>, b: Seq<char>) -> bool
    decreases a.len(),
{
    if a.len() == 0 {
        b.len() > 0
    } else if b.len() == 0 {
        false
    } else if a[0] != b[0] {
        (a[0] as u32) < (b[0] as u32)
    } else {
        text_before(a.drop_first(), b.drop_first())
    }
}

/// The report's sections (sensitive files, shell scripts, source files)
/// follow the alphabetical order of their headings, which is the order in
/// which a map sorted by heading lists them.
pub proof fn law_sections_in_heading_order()
    ensures
        text_before(
            Category::SensitiveTooOpen.title_text(),
            Category::ShellNeedsExec.title_text(),
        ),
        text_before(
            Category::ShellNeedsExec.title_text(),
            Category::SourceExecutable.title_text(),
        ),
{
    let a = Category::SensitiveTooOpen.title_text();
    let b = Category::ShellNeedsExec.title_text();
    let c = Category::SourceExecutable.title_text();
    reveal_strlit("Sensitive files too open");
    reveal_strlit("Shell scripts missing +x");
    reveal_strlit("Source files marked executable");
    assert(a[0] == 'S' && b[0] == 'S' && c[0] == 'S');
    assert(a.drop_first()[0] == a[1] && a[1] == 'e');
    assert(b.drop_first()[0] == b[1] && b[1] == 'h');
    assert(c.drop_first()[0] == c[1] && c[1] == 'o');
    assert(text_before(a.drop_first(), b.drop_first()));
    assert(text_before(b.drop_first(), c.drop_first()));
}

/// Whether an issue is of category `c`.
pub open spec fn of_category(c: Category) -> spec_fn(IssueView) -> bool {
    |i: IssueView| i.category == c
}

/// The section of a category lists every issue of that category, each once,
/// in the order of the issues: they are the issues filtered by category.
pub proof fn law_sections_list_every_issue(issues: Seq<IssueView>, c: Category)
    ensures
        issues_in(issues, c) == issues.filter(of_category(c)),
    decreases issues.len(),
{
    reveal(Seq::filter);
    if issues.len() > 0 {
        law_sections_list_every_issue(issues.drop_last(), c);
    }
}

/// Every issue falls in exactly one section: the three sections hold as many
/// issue lines as there are issues.
pub proof fn law_sections_cover_all_issues(issues: Seq<IssueView>)
    ensures
        issues_in(issues, Category::SensitiveTooOpen).len() + issues_in(
            issues,
            Category::ShellNeedsExec,
        ).len() + issues_in(issues, Category::SourceExecutable).len() == issues.len(),
    decreases issues.len(),
{
    if issues.len() > 0 {
        law_sections_cover_all_issues(issues.drop_last());
    }
}

/// The lines of one category: nothing when it has no issue, else its heading,
/// a line for each of its issues in their order, and an empty line.
pub open spec fn section(issues: Seq<IssueView>, c: Category) -> Seq<Seq<(Seq<char>, Style)>> {
    let items = issues_in(issues, c);
    if items.len() == 0 {
        seq![]
    } else {
        seq![seq![(c.title_text(), Style::Heading)]] + items.map_values(
            |i: IssueView| issue_line(i),
        ) + seq![Seq::<(Seq<char>, Style)>::empty()]
    }
}

/// The number of different paths among the issues, paths being the same
/// when they have the same components (as `a` and `a/` do).
pub open spec fn distinct_paths(issues: Seq<IssueView>) -> nat {
    issues.map_values(|i: IssueView| components(i.path)).to_set().len()
}

/// The closing line: "✗ N issue(s) found across F file(s)", F counting
/// different paths.
pub open spec fn summary_line(issues: Seq<IssueView>) -> Seq<(Seq<char>, Style)> {
    let n = issues.len();
    let f = distinct_paths(issues);
    seq![
        ("✗"@, Style::Failure),
        (" "@ + decimal(n) + " issue"@ + plural_text(n) + " found across "@ + decimal(f) + " file"@
            + plural_text(f), Style::Plain),
    ]
}

/// The line printed when there is no issue.
pub open spec fn all_clear_line() -> Seq<(Seq<char>, Style)> {
    seq![("✓"@, Style::Success), (" no permission issues found"@, Style::Plain)]
}

/// The text report. Without issues it is the all-clear line, or nothing in
/// quiet mode. With issues it lists them by category, the categories in the
/// alphabetical order of their headings (sensitive files, shell scripts,
/// source files), then the summary line; quiet mode keeps the summary line
/// alone.
pub open spec fn text_report_spec(issues: Seq<IssueView>, quiet: bool) -> Seq<
    Seq<(Seq<char>, Style)>,
> {
    if issues.len() == 0 {
        if quiet {
            seq![]
        } else {
            seq![all_clear_line()]
        }
    } else if quiet {
        seq![summary_line(issues)]
    } else {
        section(issues, Category::SensitiveTooOpen) + section(issues, Category::ShellNeedsExec)
            + section(issues, Category::SourceExecutable) + seq![summary_line(issues)]
    }
}

/// The number of categories that have at least one issue.
pub open spec fn categories_found(issues: Seq<IssueView>) -> nat {
    (if issues_in(issues, Category::SensitiveTooOpen).len() > 0 {
        1nat
    } else {
        0nat
    }) + (if issues_in(issues, Category::ShellNeedsExec).len() > 0 {
        1nat
    } else {
        0nat
    }) + (if issues_in(issues, Category::SourceExecutable).len() > 0 {
        1nat
    } else {
        0nat
    })
}

/// The shape of the text report. Without issues it is the all-clear line,
/// or nothing when quiet. With issues it ends with the summary line, which
/// counts the issues and the different paths; quiet, that line is all. Not
/// quiet, it has one line per issue, a heading and an empty line per
/// category found, and the summary.
pub proof fn law_report_shape(issues: Seq<IssueView>, quiet: bool)
    ensures
        issues.len() == 0 && quiet ==> text_report_spec(issues, quiet).len() == 0,
        issues.len() == 0 && !quiet ==> text_report_spec(issues, quiet) == seq![all_clear_line()],
        issues.len() > 0 && quiet ==> text_report_spec(issues, quiet) == seq![summary_line(issues)],
        issues.len() > 0 && !quiet ==> text_report_spec(issues, quiet).len() == issues.len() + 2
            * categories_found(issues) + 1,
        issues.len() > 0 ==> text_report_spec(issues, quiet).last() == summary_line(issues),
        issues.len() > 0 ==> summary_line(issues)[0] == ("✗"@, Style::Failure),
        issues.len() > 0 ==> summary_line(issues)[1].0 == " "@ + decimal(issues.len()) + " issue"@
            + plural_text(issues.len()) + " found across "@ + decimal(distinct_paths(issues))
            + " file"@ + plural_text(distinct_paths(issues)),
{
    law_sections_cover_all_issues(issues);
}

/// The components of the paths held in a list.
pub open spec fn path_components_view(v: Seq<Vec<u8>>) -> Seq<Seq<(u8, Seq<u8>)>> {
    v.map_values(|p: Vec<u8>| components(p@))
}

fn contains_path(seen: &Vec<Vec<u8>>, p: &[u8]) -> (r: bool)
    ensures
        r == path_components_view(seen@).contains(components(p@)),
{
    let mut i: usize = 0;
    while i < seen.len()
        invariant
            i <= seen@.len(),
            forall|j: int| 0 <= j < i ==> components(seen@[j]@) != components(p@),
        decreases seen@.len() - i,
    {
        let c = compare_paths(seen[i].as_slice(), p);
        proof {
            law_path_order_zero_iff_same_components(seen@[i as int]@, p@);
        }
        if c == 0 {
            assert(path_components_view(seen@)[i as int] == components(p@));
            return true;
        }
        i = i + 1;
    }
    assert forall|j: int| 0 <= j < path_components_view(seen@).len() implies path_components_view(
        seen@,
    )[j] != components(p@) by {
        assert(path_components_view(seen@)[j] == components(seen@[j]@));
    }
    false
}

/// The number of different paths among the issues, compared as paths.
pub fn distinct_path_count(issues: &[Issue]) -> (n: usize)
    ensures
        n == distinct_paths(issues_view(issues@)),
{
    let ghost all = issues_view(issues@).map_values(|i: IssueView| components(i.path));
    let mut seen: Vec<Vec<u8>> = Vec::new();
    let mut i: usize = 0;
    while i < issues.len()
        invariant
            i <= issues@.len(),
            all == issues_view(issues@).map_values(|i: IssueView| components(i.path)),
            seen@.len() <= i,
            path_components_view(seen@).no_duplicates(),
            path_components_view(seen@).to_set() == all.take(i as int).to_set(),
        decreases issues@.len() - i,
    {
        let p = issues[i].path.as_slice();
        let ghost c = components(p@);
        assert(all.take(i + 1) =~= all.take(i as int).push(c));
        proof {
            all.take(i as int).lemma_push_to_set_commute(c);
        }
        if !contains_path(&seen, p) {
            let ghost before = path_components_view(seen@);
            let copy = copy_bytes(p, 0, p.len());
            assert(copy@ =~= p@);
            seen.push(copy);
            assert(path_components_view(seen@) =~= before.push(c));
            proof {
                before.lemma_push_to_set_commute(c);
                assert forall|a: int, b: int|
                    0 <= a < b < path_components_view(seen@).len() implies path_components_view(
                    seen@,
                )[a] != path_components_view(seen@)[b] by {
                    if b == before.len() {
                        assert(before.contains(before[a]));
                    } else {
                        assert(before[a] != before[b]);
                    }
                }
            }
        } else {
            proof {
                assert(all.take(i as int).to_set().contains(c));
                assert(all.take(i as int).to_set().insert(c) =~= all.take(i as int).to_set());
            }
        }
        i = i + 1;
    }
    proof {
        path_components_view(seen@).unique_seq_to_set();
        assert(all.take(issues@.len() as int) =~= all);
    }
    seen.len()
}

fn summary_for(issues: &[Issue]) -> (line: Vec<Segment>)
    ensures
        line_view(line@) == summary_line(issues_view(issues@)),
{
    let n = issues.len();
    let f = distinct_path_count(issues);
    let mut t = String::from_str(" ");
    let ns = decimal_count(n);
    t.append(ns.as_str());
    t.append(" issue");
    t.append(plural(n));
    t.append(" found across ");
    let fs = decimal_count(f);
    t.append(fs.as_str());
    t.append(" file");
    t.append(plural(f));
    let mut line: Vec<Segment> = Vec::new();
    line.push(segment(String::from_str("✗"), Style::Failure));
    line.push(segment(t, Style::Plain));
    assert(issues_view(issues@).len() == n);
    assert(line_view(line@) =~= summary_line(issues_view(issues@)));
    line
}

fn push_section(lines: &mut Vec<Vec<Segment>>, issues: &[Issue], c: Category)
    ensures
        lines_view(final(lines)@) == lines_view(old(lines)@) + section(issues_view(issues@), c),
{
    let mut items: Vec<Vec<Segment>> = Vec::new();
    let mut i: usize = 0;
    while i < issues.len()
        invariant
            i <= issues@.len(),
            lines_view(items@) == issues_in(issues_view(issues@.take(i as int)), c).map_values(
                |x: IssueView| issue_line(x),
            ),
        decreases issues@.len() - i,
    {
        let ghost before = items@;
        let ghost prev = issues_view(issues@.take(i as int));
        let ghost t = issues_view(issues@.take(i + 1));
        assert(t.drop_last() =~= prev);
        assert(t.last() == issues@[i as int]@);
        if issues[i].category == c {
            let line = issue_line_for(&issues[i]);
            items.push(line);
            assert(issues_in(t, c) == issues_in(prev, c).push(issues@[i as int]@));
            assert(lines_view(items@) =~= lines_view(before).push(line_view(line@)));
            assert(issues_in(t, c).map_values(|x: IssueView| issue_line(x)) =~= issues_in(
                prev,
                c,
            ).map_values(|x: IssueView| issue_line(x)).push(issue_line(issues@[i as int]@)));
        } else {
            assert(issues_in(t, c) == issues_in(prev, c));
        }
        i = i + 1;
    }
    assert(issues@.take(issues@.len() as int) =~= issues@);
    let ghost items_lines = lines_view(items@);
    if items.len() > 0 {
        let ghost start = lines_view(lines@);
        let mut heading: Vec<Segment> = Vec::new();
        heading.push(segment(String::from_str(c.title()), Style::Heading));
        assert(line_view(heading@) =~= seq![(c.title_text(), Style::Heading)]);
        lines.push(heading);
        lines.append(&mut items);
        let empty: Vec<Segment> = Vec::new();
        assert(line_view(empty@) =~= Seq::<(Seq<char>, Style)>::empty());
        lines.push(empty);
        assert(lines_view(lines@) =~= start + seq![seq![(c.title_text(), Style::Heading)]]
            + items_lines + seq![Seq::<(Seq<char>, Style)>::empty()]);
    } else {
        assert(lines_view(lines@) =~= lines_view(lines@) + section(issues_view(issues@), c));
    }
}

/// The lines of the text report on `issues`; `quiet` keeps the summary line
/// alone.
pub fn text_report(issues: &[Issue], quiet: bool) -> (lines: Vec<Vec<Segment>>)
    ensures
        lines_view(lines@) == text_report_spec(issues_view(issues@), quiet),
{
    let mut lines: Vec<Vec<Segment>> = Vec::new();
    if issues.len() == 0 {
        if !quiet {
            let mut line: Vec<Segment> = Vec::new();
            line.push(segment(String::from_str("✓"), Style::Success));
            line.push(segment(String::from_str(" no permission issues found"), Style::Plain));
            assert(line_view(line@) =~= all_clear_line());
            lines.push(line);
        }
        assert(issues_view(issues@).len() == 0);
        assert(lines_view(lines@) =~= text_report_spec(issues_view(issues@), quiet));
        return lines;
    }
    if !quiet {
        // Grouped by category, the categories in the order of their headings.
        push_section(&mut lines, issues, Category::SensitiveTooOpen);
        push_section(&mut lines, issues, Category::ShellNeedsExec);
        push_section(&mut lines, issues, Category::SourceExecutable);
    }
    let ghost before = lines_view(lines@);
    assert(issues_view(issues@).len() == issues@.len());
    lines.push(summary_for(issues));
    assert(lines_view(lines@) =~= before + seq![summary_line(issues_view(issues@))]);
    assert(lines_view(lines@) =~= text_report_spec(issues_view(issues@), quiet));
    lines
}

} // verus!
