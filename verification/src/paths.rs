//! The final component of a Unix path and its extension, read from the
//! path's bytes the way `std::path::Path::file_name` and
//! `std::path::Path::extension` read them.
//!
//! A path's components are the pieces between `/` separators. Empty pieces
//! (from a leading, doubled or trailing `/`) and `.` pieces are not
//! components, except that a leading `.` is the "current directory"
//! component; `..` is the "parent directory" component. The file name is the
//! last component, when that is an ordinary name (not `.`, `..` or the root).
use vstd::prelude::*;

verus! {

/// The byte `/`.
pub open spec fn is_sep(b: u8) -> bool {
    b == 47u8
}

/// Where the piece that ends at `end` begins: just after the last `/`
/// before `end`, or at 0.
pub open spec fn seg_start(p: Seq<u8>, end: int) -> int
    decreases end,
{
    if end <= 0 {
        0
    } else if is_sep(p[end - 1]) {
        end
    } else {
        seg_start(p, end - 1)
    }
}

/// The piece `.`.
pub open spec fn is_dot(s: Seq<u8>) -> bool {
    s == seq![46u8]
}

/// The piece `..`.
pub open spec fn is_dot_dot(s: Seq<u8>) -> bool {
    s == seq![46u8, 46u8]
}

/// The bounds of the last component of `p[0..end]` that is neither empty
/// nor `.`, reading the pieces from the end; `None` when there is none.
pub open spec fn last_name_span(p: Seq<u8>, end: int) -> Option<(int, int)>
    decreases end,
{
    if end <= 0 || end > p.len() {
        None
    } else {
        let s = seg_start(p, end);
        let piece = p.subrange(s, end);
        if piece.len() == 0 || is_dot(piece) {
            if s <= 0 {
                None
            } else {
                proof {
                    lemma_seg_start_bounds(p, end);
                }
                last_name_span(p, s - 1)
            }
        } else {
            Some((s, end))
        }
    }
}

/// The file name of a path: its last component when that is an ordinary
/// name, as `Path::file_name` gives it.
pub open spec fn file_name(p: Seq<u8>) -> Option<Seq<u8>> {
    match last_name_span(p, p.len() as int) {
        Some((s, e)) => if is_dot_dot(p.subrange(s, e)) {
            None
        } else {
            Some(p.subrange(s, e))
        },
        None => None,
    }
}

/// The index of the last `.` in `n[0..end]`, or -1.
pub open spec fn last_dot(n: Seq<u8>, end: int) -> int
    decreases end,
{
    if end <= 0 {
        -1
    } else if n[end - 1] == 46u8 {
        end - 1
    } else {
        last_dot(n, end - 1)
    }
}

/// The extension of a file name, as `Path::extension` gives it: what follows
/// the last `.`, unless there is no `.` or the only `.` is the first byte.
pub open spec fn name_extension(n: Seq<u8>) -> Option<Seq<u8>> {
    let d = last_dot(n, n.len() as int);
    if d <= 0 {
        None
    } else {
        Some(n.subrange(d + 1, n.len() as int))
    }
}

/// The extension of a path.
pub open spec fn extension(p: Seq<u8>) -> Option<Seq<u8>> {
    match file_name(p) {
        Some(n) => name_extension(n),
        None => None,
    }
}

pub proof fn lemma_seg_start_bounds(p: Seq<u8>, end: int)
    requires
        0 <= end <= p.len(),
    ensures
        0 <= seg_start(p, end) <= end,
        seg_start(p, end) > 0 ==> is_sep(p[seg_start(p, end) - 1]),
        forall|i: int| seg_start(p, end) <= i < end ==> !is_sep(#[trigger] p[i]),
    decreases end,
{
    if end > 0 && !is_sep(p[end - 1]) {
        lemma_seg_start_bounds(p, end - 1);
    }
}

proof fn lemma_seg_start_at(p: Seq<u8>, k: int, end: int)
    requires
        0 < k <= end <= p.len(),
        is_sep(p[k - 1]),
        forall|i: int| k <= i < end ==> !is_sep(#[trigger] p[i]),
    ensures
        seg_start(p, end) == k,
    decreases end,
{
    if end > k {
        lemma_seg_start_at(p, k, end - 1);
    }
}

/// The file name of `dir/name` is `name`, whatever the directory, for a name
/// that holds no `/` and is neither `.` nor `..`.
pub proof fn law_file_name_of_join(dir: Seq<u8>, name: Seq<u8>)
    requires
        name.len() > 0,
        forall|i: int| 0 <= i < name.len() ==> !is_sep(#[trigger] name[i]),
        !is_dot(name),
        !is_dot_dot(name),
    ensures
        file_name(dir + seq![47u8] + name) == Some(name),
{
    let p = dir + seq![47u8] + name;
    let k: int = dir.len() + 1int;
    assert forall|i: int| k <= i < p.len() implies !is_sep(#[trigger] p[i]) by {
        assert(p[i] == name[i - k]);
    }
    lemma_seg_start_at(p, k, p.len() as int);
    assert(p.subrange(k, p.len() as int) =~= name);
}

proof fn lemma_last_dot_none(n: Seq<u8>, end: int)
    requires
        0 <= end <= n.len(),
        forall|i: int| 0 <= i < end ==> #[trigger] n[i] != 46u8,
    ensures
        last_dot(n, end) == -1,
    decreases end,
{
    if end > 0 {
        lemma_last_dot_none(n, end - 1);
    }
}

/// The extension of `stem.ext` is `ext` when `ext` holds no `.` and the stem
/// is not empty; a name without `.`, or whose only `.` is its first byte, has
/// none.
pub proof fn law_name_extension(stem: Seq<u8>, ext: Seq<u8>)
    requires
        stem.len() > 0,
        forall|i: int| 0 <= i < ext.len() ==> #[trigger] ext[i] != 46u8,
    ensures
        name_extension(stem + seq![46u8] + ext) == Some(ext),
        (forall|i: int| 0 <= i < stem.len() ==> #[trigger] stem[i] != 46u8) ==> name_extension(stem)
            is None,
        (forall|i: int| 0 <= i < stem.len() ==> #[trigger] stem[i] != 46u8) ==> name_extension(
            seq![46u8] + stem,
        ) is None,
{
    let n = stem + seq![46u8] + ext;
    let d = stem.len() as int;
    lemma_last_dot_none_from(n, d + 1, n.len() as int);
    assert(n[d] == 46u8);
    assert(n.subrange(d + 1, n.len() as int) =~= ext);
    if forall|i: int| 0 <= i < stem.len() ==> #[trigger] stem[i] != 46u8 {
        lemma_last_dot_none(stem, stem.len() as int);
        let m = seq![46u8] + stem;
        assert forall|i: int| 1 <= i < m.len() implies #[trigger] m[i] != 46u8 by {
            assert(m[i] == stem[i - 1]);
        }
        lemma_last_dot_none_from(m, 1, m.len() as int);
        assert(m[0] == 46u8);
    }
}

proof fn lemma_last_dot_none_from(n: Seq<u8>, start: int, end: int)
    requires
        1 <= start <= end <= n.len(),
        n[start - 1] == 46u8,
        forall|i: int| start <= i < end ==> #[trigger] n[i] != 46u8,
    ensures
        last_dot(n, end) == start - 1,
    decreases end,
{
    if end > start {
        lemma_last_dot_none_from(n, start, end - 1);
    }
}

/// Where the file name of `p` lies in it, as `(start, end)`.
pub fn file_name_span(p: &[u8]) -> (r: Option<(usize, usize)>)
    ensures
        match r {
            Some((s, e)) => s < e <= p@.len() && file_name(p@) == Some(p@.subrange(s as int, e as int)),
            None => file_name(p@) is None,
        },
{
    let mut end = p.len();
    loop
        invariant
            end <= p@.len(),
            last_name_span(p@, p@.len() as int) == last_name_span(p@, end as int),
        decreases end,
    {
        if end == 0 {
            return None;
        }
        let mut s = end;
        while s > 0 && p[s - 1] != 47u8
            invariant
                s <= end <= p@.len(),
                seg_start(p@, end as int) == seg_start(p@, s as int),
            decreases s,
        {
            s = s - 1;
        }
        proof {
            lemma_seg_start_bounds(p@, end as int);
        }
        assert(seg_start(p@, end as int) == s);
        if end == s || (end - s == 1 && p[s] == 46u8) {
            assert(end - s == 1 ==> p@.subrange(s as int, end as int) =~= seq![46u8]);
            if s == 0 {
                return None;
            }
            end = s - 1;
        } else {
            assert(!is_dot(p@.subrange(s as int, end as int))) by {
                if is_dot(p@.subrange(s as int, end as int)) {
                    assert(p@.subrange(s as int, end as int).len() == end - s);
                    assert(seq![46u8].len() == 1);
                    assert(seq![46u8][0] == 46u8);
                    assert(p@.subrange(s as int, end as int)[0] == p@[s as int]);
                }
            }
            assert(last_name_span(p@, end as int) == Some((s as int, end as int)));
            let dot_dot = end - s == 2 && p[s] == 46u8 && p[s + 1] == 46u8;
            if dot_dot {
                assert(p@.subrange(s as int, end as int) =~= seq![46u8, 46u8]);
                return None;
            } else {
                assert(!is_dot_dot(p@.subrange(s as int, end as int))) by {
                    if is_dot_dot(p@.subrange(s as int, end as int)) {
                        assert(seq![46u8, 46u8].len() == 2);
                        assert(seq![46u8, 46u8][0] == 46u8);
                        assert(seq![46u8, 46u8][1] == 46u8);
                        assert(p@.subrange(s as int, end as int)[0] == p@[s as int]);
                        assert(p@.subrange(s as int, end as int)[1] == p@[s + 1]);
                    }
                }
                return Some((s, end));
            }
        }
    }
}

/// Where the extension of the name `p[start..end]` lies, as `(start, end)`.
pub fn extension_span(p: &[u8], start: usize, end: usize) -> (r: Option<(usize, usize)>)
    requires
        start <= end <= p@.len(),
    ensures
        match r {
            Some((s, e)) => start <= s <= e && e == end && name_extension(
                p@.subrange(start as int, end as int),
            ) == Some(p@.subrange(s as int, e as int)),
            None => name_extension(p@.subrange(start as int, end as int)) is None,
        },
{
    let ghost n = p@.subrange(start as int, end as int);
    let mut i = end;
    while i > start && p[i - 1] != 46u8
        invariant
            start <= i <= end <= p@.len(),
            n == p@.subrange(start as int, end as int),
            last_dot(n, (end - start) as int) == last_dot(n, (i - start) as int),
        decreases i,
    {
        assert(n[i - start - 1] == p@[i - 1]);
        i = i - 1;
    }
    if i - start <= 1 {
        if i - start == 1 {
            assert(n[0] == p@[start as int]);
        }
        None
    } else {
        assert(n[i - start - 1] == p@[i - 1]);
        assert(last_dot(n, (i - start) as int) == i - start - 1);
        assert(n.subrange(i - start, n.len() as int) =~= p@.subrange(i as int, end as int));
        Some((i, end))
    }
}

/// The bytes `p[start..end]`.
pub fn copy_bytes(p: &[u8], start: usize, end: usize) -> (v: Vec<u8>)
    requires
        start <= end <= p@.len(),
    ensures
        v@ == p@.subrange(start as int, end as int),
{
    let mut v: Vec<u8> = Vec::new();
    let mut i = start;
    while i < end
        invariant
            start <= i <= end <= p@.len(),
            v@ == p@.subrange(start as int, i as int),
        decreases end - i,
    {
        v.push(p[i]);
        i = i + 1;
        assert(v@ =~= p@.subrange(start as int, i as int));
    }
    v
}

} // verus!
