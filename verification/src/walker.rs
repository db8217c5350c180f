//! The order in which the files of a walk are checked and reported: sorted by
//! path, paths compared component by component as `std::path::Path` compares
//! them, which makes the output stable.
use vstd::prelude::*;
use crate::paths::{copy_bytes, is_dot, is_dot_dot, is_sep};

verus! {

broadcast use vstd::seq_lib::to_multiset_insert;

/// The kind of the root component `/`.
pub open spec fn root_dir() -> u8 {
    1
}

/// The kind of the leading current-directory component `.`.
pub open spec fn cur_dir() -> u8 {
    2
}

/// The kind of a parent-directory component `..`.
pub open spec fn parent_dir() -> u8 {
    3
}

/// The kind of an ordinary name.
pub open spec fn normal() -> u8 {
    4
}

/// The first `/` at or after `i`, or the end of `p`.
pub open spec fn next_sep(p: Seq<u8>, i: int) -> int
    decreases p.len() - i,
{
    if i >= p.len() {
        p.len() as int
    } else if is_sep(p[i]) {
        i
    } else {
        next_sep(p, i + 1)
    }
}

/// The component a piece between separators stands for: none for an empty
/// piece or `.`, a parent-directory component for `..`, else the name.
pub open spec fn piece_component(piece: Seq<u8>) -> Seq<(u8, Seq<u8>)> {
    if piece.len() == 0 || is_dot(piece) {
        seq![]
    } else if is_dot_dot(piece) {
        seq![(parent_dir(), Seq::<u8>::empty())]
    } else {
        seq![(normal(), piece)]
    }
}

/// The components of the pieces of `p` from `i` on.
pub open spec fn body_components(p: Seq<u8>, i: int) -> Seq<(u8, Seq<u8>)>
    decreases p.len() + 1 - i,
{
    if i < 0 || i >= p.len() {
        seq![]
    } else {
        proof {
            lemma_next_sep_bounds(p, i);
        }
        piece_component(p.subrange(i, next_sep(p, i))) + body_components(p, next_sep(p, i) + 1)
    }
}

/// A path that begins with `/`.
pub open spec fn has_root(p: Seq<u8>) -> bool {
    p.len() > 0 && is_sep(p[0])
}

/// A relative path whose first piece is `.`.
pub open spec fn has_cur_dir(p: Seq<u8>) -> bool {
    !has_root(p) && p.len() > 0 && p[0] == 46u8 && (p.len() == 1 || is_sep(p[1]))
}

/// The components of a Unix path, as `Path::components` yields them: the
/// root, or a leading `.`, then its pieces, empty and `.` pieces left out.
/// Each is a kind and, for an ordinary name, its bytes.
pub open spec fn components(p: Seq<u8>) -> Seq<(u8, Seq<u8>)> {
    (if has_root(p) {
        seq![(root_dir(), Seq::<u8>::empty())]
    } else {
        seq![]
    }) + (if has_cur_dir(p) {
        seq![(cur_dir(), Seq::<u8>::empty())]
    } else {
        seq![]
    }) + body_components(p, 0)
}

/// Byte strings compared lexicographically: -1, 0 or 1.
pub open spec fn order_bytes(a: Seq<u8>, b: Seq<u8>) -> int
    decreases a.len(),
{
    if a.len() == 0 {
        if b.len() == 0 {
            0
        } else {
            -1
        }
    } else if b.len() == 0 {
        1
    } else if a[0] < b[0] {
        -1
    } else if a[0] > b[0] {
        1
    } else {
        order_bytes(a.drop_first(), b.drop_first())
    }
}

/// Components compared: by kind (root, current directory, parent directory,
/// name), then names by their bytes.
pub open spec fn order_component(x: (u8, Seq<u8>), y: (u8, Seq<u8>)) -> int {
    if x.0 < y.0 {
        -1
    } else if x.0 > y.0 {
        1
    } else {
        order_bytes(x.1, y.1)
    }
}

/// Lists of components compared lexicographically.
pub open spec fn order_components(a: Seq<(u8, Seq<u8>)>, b: Seq<(u8, Seq<u8>)>) -> int
    decreases a.len(),
{
    if a.len() == 0 {
        if b.len() == 0 {
            0
        } else {
            -1
        }
    } else if b.len() == 0 {
        1
    } else if order_component(a[0], b[0]) != 0 {
        order_component(a[0], b[0])
    } else {
        order_components(a.drop_first(), b.drop_first())
    }
}

/// Paths compared as `Path` compares them: by their components.
pub open spec fn path_order(a: Seq<u8>, b: Seq<u8>) -> int {
    order_components(components(a), components(b))
}

proof fn lemma_order_bytes_antisym(a: Seq<u8>, b: Seq<u8>)
    ensures
        order_bytes(a, b) == -order_bytes(b, a),
        -1 <= order_bytes(a, b) <= 1,
    decreases a.len(),
{
    if a.len() > 0 && b.len() > 0 && a[0] == b[0] {
        lemma_order_bytes_antisym(a.drop_first(), b.drop_first());
    }
}

proof fn lemma_order_components_antisym(a: Seq<(u8, Seq<u8>)>, b: Seq<(u8, Seq<u8>)>)
    ensures
        order_components(a, b) == -order_components(b, a),
    decreases a.len(),
{
    if a.len() > 0 && b.len() > 0 {
        lemma_order_bytes_antisym(a[0].1, b[0].1);
        if order_component(a[0], b[0]) == 0 {
            lemma_order_components_antisym(a.drop_first(), b.drop_first());
        }
    }
}

/// Swapping the two paths turns the comparison around.
pub proof fn law_path_order_antisymmetric(a: Seq<u8>, b: Seq<u8>)
    ensures
        path_order(a, b) == -path_order(b, a),
{
    lemma_order_components_antisym(components(a), components(b));
}

proof fn lemma_order_bytes_zero(a: Seq<u8>, b: Seq<u8>)
    ensures
        order_bytes(a, b) == 0 <==> a == b,
    decreases a.len(),
{
    if a.len() > 0 && b.len() > 0 && a[0] == b[0] {
        lemma_order_bytes_zero(a.drop_first(), b.drop_first());
        if a.drop_first() == b.drop_first() {
            assert forall|i: int| 0 <= i < a.len() implies a[i] == b[i] by {
                if i > 0 {
                    assert(a[i] == a.drop_first()[i - 1]);
                    assert(b[i] == b.drop_first()[i - 1]);
                }
            }
            assert(a =~= b);
        }
    } else if a.len() == 0 && b.len() == 0 {
        assert(a =~= b);
    }
}

proof fn lemma_order_components_zero(a: Seq<(u8, Seq<u8>)>, b: Seq<(u8, Seq<u8>)>)
    ensures
        order_components(a, b) == 0 <==> a == b,
    decreases a.len(),
{
    if a.len() > 0 && b.len() > 0 {
        lemma_order_bytes_zero(a[0].1, b[0].1);
        if order_component(a[0], b[0]) == 0 {
            assert(a[0] == b[0]);
            lemma_order_components_zero(a.drop_first(), b.drop_first());
            if a.drop_first() == b.drop_first() {
                assert forall|i: int| 0 <= i < a.len() implies a[i] == b[i] by {
                    if i > 0 {
                        assert(a[i] == a.drop_first()[i - 1]);
                        assert(b[i] == b.drop_first()[i - 1]);
                    }
                }
                assert(a =~= b);
            }
        } else {
            assert(a[0] != b[0]);
        }
    } else if a.len() == 0 && b.len() == 0 {
        assert(a =~= b);
    }
}

/// Two paths compare equal exactly when they have the same components (as
/// `a`, `a/` and `./a/.` do).
pub proof fn law_path_order_zero_iff_same_components(a: Seq<u8>, b: Seq<u8>)
    ensures
        path_order(a, b) == 0 <==> components(a) == components(b),
{
    lemma_order_components_zero(components(a), components(b));
}

/// Components as plain values.
pub open spec fn components_view(v: Seq<(u8, Vec<u8>)>) -> Seq<(u8, Seq<u8>)> {
    v.map_values(|c: (u8, Vec<u8>)| (c.0, c.1@))
}

proof fn lemma_body_components_end(p: Seq<u8>, i: int)
    requires
        i >= p.len(),
    ensures
        body_components(p, i) == Seq::<(u8, Seq<u8>)>::empty(),
{
}

pub proof fn lemma_next_sep_bounds(p: Seq<u8>, i: int)
    requires
        0 <= i <= p.len(),
    ensures
        i <= next_sep(p, i) <= p.len(),
        next_sep(p, i) < p.len() ==> is_sep(p[next_sep(p, i)]),
    decreases p.len() - i,
{
    if i < p.len() && !is_sep(p[i]) {
        lemma_next_sep_bounds(p, i + 1);
    }
}

fn piece_of(p: &[u8], i: usize, j: usize) -> (r: Vec<(u8, Vec<u8>)>)
    requires
        i <= j <= p@.len(),
    ensures
        components_view(r@) == piece_component(p@.subrange(i as int, j as int)),
{
    let ghost piece = p@.subrange(i as int, j as int);
    let mut r: Vec<(u8, Vec<u8>)> = Vec::new();
    let len = j - i;
    if len == 0 || (len == 1 && p[i] == 46u8) {
        if len == 1 {
            assert(piece =~= seq![46u8]);
        }
    } else if len == 2 && p[i] == 46u8 && p[i + 1] == 46u8 {
        assert(piece =~= seq![46u8, 46u8]);
        assert(!is_dot(piece)) by {
            assert(seq![46u8].len() == 1);
        }
        r.push((3u8, Vec::new()));
        assert(components_view(r@) =~= seq![(parent_dir(), Seq::<u8>::empty())]);
    } else {
        assert(!is_dot(piece)) by {
            if is_dot(piece) {
                assert(seq![46u8].len() == 1);
                assert(seq![46u8][0] == 46u8);
                assert(piece[0] == p@[i as int]);
            }
        }
        assert(!is_dot_dot(piece)) by {
            if is_dot_dot(piece) {
                assert(seq![46u8, 46u8].len() == 2);
                assert(seq![46u8, 46u8][0] == 46u8);
                assert(seq![46u8, 46u8][1] == 46u8);
                assert(piece[0] == p@[i as int]);
                assert(piece[1] == p@[i + 1]);
            }
        }
        r.push((4u8, copy_bytes(p, i, j)));
        assert(components_view(r@) =~= seq![(normal(), piece)]);
    }
    r
}

/// The components of a path.
pub fn components_of(p: &[u8]) -> (r: Vec<(u8, Vec<u8>)>)
    ensures
        components_view(r@) == components(p@),
{
    let mut r: Vec<(u8, Vec<u8>)> = Vec::new();
    let n = p.len();
    if n > 0 && p[0] == 47u8 {
        r.push((1u8, Vec::new()));
    } else if n > 0 && p[0] == 46u8 && (n == 1 || p[1] == 47u8) {
        r.push((2u8, Vec::new()));
    }
    let ghost head = components_view(r@);
    assert(head =~= (if has_root(p@) {
        seq![(root_dir(), Seq::<u8>::empty())]
    } else {
        seq![]
    }) + (if has_cur_dir(p@) {
        seq![(cur_dir(), Seq::<u8>::empty())]
    } else {
        seq![]
    }));
    let mut i: usize = 0;
    while i < n
        invariant
            n == p@.len(),
            i <= n,
            components(p@) == components_view(r@) + body_components(p@, i as int),
        decreases n - i,
    {
        let mut j = i;
        while j < n && p[j] != 47u8
            invariant
                n == p@.len(),
                i <= j <= n,
                next_sep(p@, i as int) == next_sep(p@, j as int),
            decreases n - j,
        {
            j = j + 1;
        }
        assert(next_sep(p@, i as int) == j);
        let ghost before = components_view(r@);
        let mut piece = piece_of(p, i, j);
        r.append(&mut piece);
        assert(components_view(r@) =~= before + piece_component(p@.subrange(i as int, j as int)));
        if j < n {
            i = j + 1;
        } else {
            proof {
                lemma_body_components_end(p@, j + 1);
                lemma_body_components_end(p@, n as int);
            }
            i = n;
        }
    }
    proof {
        lemma_body_components_end(p@, i as int);
    }
    assert(components(p@) =~= components_view(r@));
    r
}

fn compare_bytes(a: &[u8], b: &[u8]) -> (r: i8)
    ensures
        r == order_bytes(a@, b@),
{
    let mut k: usize = 0;
    assert(a@.subrange(0, a@.len() as int) =~= a@);
    assert(b@.subrange(0, b@.len() as int) =~= b@);
    while k < a.len() && k < b.len() && a[k] == b[k]
        invariant
            k <= a@.len(),
            k <= b@.len(),
            order_bytes(a@, b@) == order_bytes(
                a@.subrange(k as int, a@.len() as int),
                b@.subrange(k as int, b@.len() as int),
            ),
        decreases a@.len() - k,
    {
        let ghost sa = a@.subrange(k as int, a@.len() as int);
        let ghost sb = b@.subrange(k as int, b@.len() as int);
        assert(sa.drop_first() =~= a@.subrange(k + 1, a@.len() as int));
        assert(sb.drop_first() =~= b@.subrange(k + 1, b@.len() as int));
        assert(sa[0] == a@[k as int]);
        assert(sb[0] == b@[k as int]);
        k = k + 1;
    }
    let ghost sa = a@.subrange(k as int, a@.len() as int);
    let ghost sb = b@.subrange(k as int, b@.len() as int);
    if k == a.len() {
        if k == b.len() {
            0
        } else {
            -1
        }
    } else if k == b.len() {
        1
    } else {
        assert(sa[0] == a@[k as int]);
        assert(sb[0] == b@[k as int]);
        if a[k] < b[k] {
            -1
        } else {
            1
        }
    }
}

/// Two paths compared as `Path` compares them: -1, 0 or 1.
pub fn compare_paths(a: &[u8], b: &[u8]) -> (r: i8)
    ensures
        r == path_order(a@, b@),
{
    let ca = components_of(a);
    let cb = components_of(b);
    let ghost va = components_view(ca@);
    let ghost vb = components_view(cb@);
    let mut k: usize = 0;
    assert(va.subrange(0, va.len() as int) =~= va);
    assert(vb.subrange(0, vb.len() as int) =~= vb);
    loop
        invariant
            k <= ca@.len(),
            k <= cb@.len(),
            va == components_view(ca@),
            vb == components_view(cb@),
            path_order(a@, b@) == order_components(
                va.subrange(k as int, va.len() as int),
                vb.subrange(k as int, vb.len() as int),
            ),
        decreases ca@.len() - k,
    {
        let ghost sa = va.subrange(k as int, va.len() as int);
        let ghost sb = vb.subrange(k as int, vb.len() as int);
        if k == ca.len() {
            return if k == cb.len() {
                0
            } else {
                -1
            };
        }
        if k == cb.len() {
            return 1;
        }
        assert(sa[0] == va[k as int]);
        assert(sb[0] == vb[k as int]);
        let (ka, na) = (ca[k].0, ca[k].1.as_slice());
        let (kb, nb) = (cb[k].0, cb[k].1.as_slice());
        if ka < kb {
            return -1;
        }
        if ka > kb {
            return 1;
        }
        let c = compare_bytes(na, nb);
        if c != 0 {
            return c;
        }
        assert(sa.drop_first() =~= va.subrange(k + 1, va.len() as int));
        assert(sb.drop_first() =~= vb.subrange(k + 1, vb.len() as int));
        k = k + 1;
    }
}

/// Paths ordered: each is compared before or equal to the next.
pub open spec fn sorted_paths(v: Seq<Seq<u8>>) -> bool {
    forall|i: int| 0 <= i < v.len() - 1 ==> path_order(#[trigger] v[i], v[i + 1]) <= 0
}

/// Byte strings as plain values.
pub open spec fn bytes_view(v: Seq<Vec<u8>>) -> Seq<Seq<u8>> {
    v.map_values(|p: Vec<u8>| p@)
}

/// Whether a path has the components `c`.
pub open spec fn has_components(c: Seq<(u8, Seq<u8>)>) -> spec_fn(Seq<u8>) -> bool {
    |p: Seq<u8>| components(p) == c
}

/// The entries of a list that are the path with components `c`, in their
/// order.
pub open spec fn entries_of_path(v: Seq<Seq<u8>>, c: Seq<(u8, Seq<u8>)>) -> Seq<Seq<u8>> {
    v.filter(has_components(c))
}

/// The paths of a walk in the order they are checked: the same paths, sorted
/// as `Path` sorts them; entries that are the same path (such as `a` and
/// `a/`) keep the order they came in.
pub fn sort_paths(files: Vec<Vec<u8>>) -> (r: Vec<Vec<u8>>)
    ensures
        bytes_view(r@).to_multiset() == bytes_view(files@).to_multiset(),
        sorted_paths(bytes_view(r@)),
        forall|c: Seq<(u8, Seq<u8>)>| #[trigger]
            entries_of_path(bytes_view(r@), c) == entries_of_path(bytes_view(files@), c),
{
    let ghost input = bytes_view(files@);
    let mut sorted: Vec<Vec<u8>> = Vec::new();
    let mut i: usize = 0;
    assert(bytes_view(sorted@) =~= input.take(0));
    while i < files.len()
        invariant
            i <= files@.len(),
            input == bytes_view(files@),
            bytes_view(sorted@).to_multiset() == input.take(i as int).to_multiset(),
            sorted_paths(bytes_view(sorted@)),
            forall|c: Seq<(u8, Seq<u8>)>| #[trigger]
                entries_of_path(bytes_view(sorted@), c) == entries_of_path(input.take(i as int), c),
        decreases files@.len() - i,
    {
        let x = copy_bytes(files[i].as_slice(), 0, files[i].len());
        let ghost xv = x@;
        assert(xv =~= input[i as int]);
        let mut pos = sorted.len();
        while pos > 0 && compare_paths(x.as_slice(), sorted[pos - 1].as_slice()) < 0
            invariant
                pos <= sorted@.len(),
                forall|k: int| pos <= k < sorted@.len() ==> path_order(xv, #[trigger] sorted@[k]@) < 0,
                x@ == xv,
            decreases pos,
        {
            pos = pos - 1;
        }
        let ghost before = bytes_view(sorted@);
        proof {
            if pos > 0 {
                law_path_order_antisymmetric(xv, before[pos - 1]);
            }
        }
        sorted.insert(pos, x);
        assert(bytes_view(sorted@) =~= before.insert(pos as int, xv));
        assert(sorted_paths(bytes_view(sorted@))) by {
            let s = bytes_view(sorted@);
            assert forall|k: int| 0 <= k < s.len() - 1 implies path_order(#[trigger] s[k], s[k + 1])
                <= 0 by {
                if k + 1 < pos {
                    assert(s[k] == before[k] && s[k + 1] == before[k + 1]);
                } else if k + 1 == pos {
                    assert(s[k] == before[k] && s[k + 1] == xv);
                } else if k == pos {
                    assert(s[k] == xv && s[k + 1] == before[k]);
                } else {
                    assert(s[k] == before[k - 1] && s[k + 1] == before[k]);
                }
            }
        }
        assert(input.take(i + 1) =~= input.take(i as int).push(xv));
        proof {
            vstd::seq_lib::to_multiset_build(input.take(i as int), xv);
            let s = bytes_view(sorted@);
            let head = before.subrange(0, pos as int);
            let tail = before.subrange(pos as int, before.len() as int);
            assert(before =~= head + tail);
            assert(s =~= head + seq![xv] + tail);
            assert forall|c: Seq<(u8, Seq<u8>)>| #[trigger]
                entries_of_path(bytes_view(sorted@), c) == entries_of_path(
                    input.take(i + 1),
                    c,
                ) by {
                let f = has_components(c);
                assert(entries_of_path(before, c) == entries_of_path(input.take(i as int), c));
                input.take(i as int).lemma_filter_push(xv, f);
                Seq::filter_distributes_over_add(head + seq![xv], tail, f);
                Seq::filter_distributes_over_add(head, seq![xv], f);
                Seq::filter_distributes_over_add(head, tail, f);
                Seq::<Seq<u8>>::empty().lemma_filter_push(xv, f);
                assert(Seq::<Seq<u8>>::empty().push(xv) =~= seq![xv]);
                assert(Seq::<Seq<u8>>::empty().filter(f).len() == 0) by {
                    Seq::<Seq<u8>>::empty().lemma_all_neg_filter_empty(f);
                }
                assert(Seq::<Seq<u8>>::empty().filter(f) =~= Seq::<Seq<u8>>::empty());
                if f(xv) {
                    assert forall|k: int| 0 <= k < tail.len() implies !f(#[trigger] tail[k]) by {
                        assert(tail[k] == before[pos + k]);
                        assert(before[pos + k] == sorted@[pos + k + 1]@);
                        law_path_order_zero_iff_same_components(xv, tail[k]);
                    }
                    assert(tail.all(|p: Seq<u8>| !f(p)));
                    tail.lemma_all_neg_filter_empty(f);
                    assert(tail.filter(f) =~= Seq::<Seq<u8>>::empty());
                    assert(head.filter(f) + tail.filter(f) =~= head.filter(f));
                    assert(head.filter(f) + seq![xv].filter(f) =~= head.filter(f).push(xv));
                    assert(s.filter(f) == head.filter(f).push(xv));
                    assert(before.filter(f) == head.filter(f));
                    assert(input.take(i + 1).filter(f) == input.take(i as int).filter(f).push(xv));
                } else {
                    assert(seq![xv].filter(f) =~= Seq::<Seq<u8>>::empty());
                    assert(head.filter(f) + seq![xv].filter(f) =~= head.filter(f));
                    assert(s.filter(f) == head.filter(f) + tail.filter(f));
                    assert(before.filter(f) == head.filter(f) + tail.filter(f));
                    assert(input.take(i + 1).filter(f) == input.take(i as int).filter(f));
                }
            }
        }
        i = i + 1;
    }
    assert(input.take(files@.len() as int) =~= input);
    sorted
}

} // verus!
