//! Unix path components, their order, and sorting with duplicate removal
//! (the order and equality of `PathBuf`).
use vstd::prelude::*;

use crate::text::{chars_of, chars_eq, chars_lt, copy_range, text_lt, lemma_text_lt_irreflexive,
    lemma_text_lt_total, lemma_text_lt_transitive,
    lemma_first_index_found, lemma_first_index_none, first_index_from};

verus! {

/// A component of a Unix path, ordered as `std::path::Component`.
pub enum Component {
    RootDir,
    CurDir,
    ParentDir,
    Normal(Seq<char>),
}

pub open spec fn comp_rank(c: Component) -> int {
    match c {
        Component::RootDir => 1,
        Component::CurDir => 2,
        Component::ParentDir => 3,
        Component::Normal(_) => 4,
    }
}

pub open spec fn comp_lt(a: Component, b: Component) -> bool {
    if comp_rank(a) != comp_rank(b) {
        comp_rank(a) < comp_rank(b)
    } else {
        match (a, b) {
            (Component::Normal(x), Component::Normal(y)) => text_lt(x, y),
            _ => false,
        }
    }
}

/// Lexicographic order on component sequences.
pub open spec fn comps_lt(a: Seq<Component>, b: Seq<Component>) -> bool
    decreases a.len(),
{
    if a.len() == 0 {
        b.len() > 0
    } else if b.len() == 0 {
        false
    } else if a[0] == b[0] {
        comps_lt(a.drop_first(), b.drop_first())
    } else {
        comp_lt(a[0], b[0])
    }
}

/// The `'/'`-separated pieces of `s` (`str::split('/')`), always at least one.
pub open spec fn segments(s: Seq<char>) -> Seq<Seq<char>>
    decreases s.len(),
{
    match first_index_from(s, '/', 0) {
        None => seq![s],
        Some(i) => {
            if 0 <= i < s.len() {
                seq![s.take(i)] + segments(s.skip(i + 1))
            } else {
                seq![s]
            }
        },
    }
}

/// Components of the pieces after the first: empty pieces and `.` are
/// skipped, `..` is the parent directory.
pub open spec fn rest_components(segs: Seq<Seq<char>>) -> Seq<Component>
    decreases segs.len(),
{
    if segs.len() == 0 {
        Seq::empty()
    } else {
        let prev = rest_components(segs.drop_last());
        let s = segs.last();
        if s.len() == 0 || s == seq!['.'] {
            prev
        } else if s == seq!['.', '.'] {
            prev.push(Component::ParentDir)
        } else {
            prev.push(Component::Normal(s))
        }
    }
}

/// Components of a Unix path (`Path::components`): a leading `/` gives the
/// root, a leading `.` of a relative path gives the current directory.
#[verifier::opaque]
pub open spec fn components(p: Seq<char>) -> Seq<Component> {
    let segs = segments(p);
    if p.len() > 0 && p[0] == '/' {
        seq![Component::RootDir] + rest_components(segs.drop_first())
    } else if segs[0] == seq!['.'] {
        seq![Component::CurDir] + rest_components(segs.drop_first())
    } else {
        rest_components(segs)
    }
}

/// Strict order of paths.
#[verifier::opaque]
pub open spec fn path_lt(a: Seq<char>, b: Seq<char>) -> bool {
    comps_lt(components(a), components(b))
}

/// Equality of paths (same components).
#[verifier::opaque]
pub open spec fn path_eq(a: Seq<char>, b: Seq<char>) -> bool {
    components(a) == components(b)
}

pub proof fn lemma_path_lt_transitive(a: Seq<char>, b: Seq<char>, c: Seq<char>)
    requires
        path_lt(a, b),
        path_lt(b, c),
    ensures
        path_lt(a, c),
{
    reveal(path_lt);
    lemma_comps_lt_transitive(components(a), components(b), components(c));
}

/// Paths in strict order are not equal.
pub proof fn lemma_path_lt_not_eq(a: Seq<char>, b: Seq<char>)
    requires
        path_lt(a, b),
    ensures
        !path_eq(a, b),
        !path_eq(b, a),
        !path_lt(b, a),
{
    reveal(path_lt);
    reveal(path_eq);
    if components(a) == components(b) {
        lemma_comps_lt_irreflexive(components(a));
    }
    lemma_comps_lt_asymmetric(components(a), components(b));
}

// ── Lemmas on the order ─────────────────────────────────────────────────────

pub proof fn lemma_comp_lt_irreflexive(a: Component)
    ensures
        !comp_lt(a, a),
{
    if let Component::Normal(x) = a {
        lemma_text_lt_irreflexive(x);
    }
}

pub proof fn lemma_comp_lt_transitive(a: Component, b: Component, c: Component)
    requires
        comp_lt(a, b),
        comp_lt(b, c),
    ensures
        comp_lt(a, c),
{
    if let (Component::Normal(x), Component::Normal(y), Component::Normal(z)) = (a, b, c) {
        lemma_text_lt_transitive(x, y, z);
    }
}

pub proof fn lemma_comp_lt_total(a: Component, b: Component)
    ensures
        a == b || comp_lt(a, b) || comp_lt(b, a),
{
    if let (Component::Normal(x), Component::Normal(y)) = (a, b) {
        lemma_text_lt_total(x, y);
    }
}

pub proof fn lemma_comps_lt_irreflexive(a: Seq<Component>)
    ensures
        !comps_lt(a, a),
    decreases a.len(),
{
    if a.len() > 0 {
        lemma_comps_lt_irreflexive(a.drop_first());
    }
}

pub proof fn lemma_comps_lt_transitive(a: Seq<Component>, b: Seq<Component>, c: Seq<Component>)
    requires
        comps_lt(a, b),
        comps_lt(b, c),
    ensures
        comps_lt(a, c),
    decreases a.len(),
{
    if a.len() > 0 && b.len() > 0 && c.len() > 0 {
        if a[0] == b[0] && b[0] == c[0] {
            lemma_comps_lt_transitive(a.drop_first(), b.drop_first(), c.drop_first());
        } else if a[0] == b[0] {
            assert(comp_lt(b[0], c[0]));
        } else if b[0] == c[0] {
            assert(comp_lt(a[0], b[0]));
        } else {
            lemma_comp_lt_transitive(a[0], b[0], c[0]);
            if a[0] == c[0] {
                lemma_comp_lt_transitive(a[0], b[0], a[0]);
                lemma_comp_lt_irreflexive(a[0]);
            }
        }
    }
}

pub proof fn lemma_comps_lt_total(a: Seq<Component>, b: Seq<Component>)
    ensures
        a == b || comps_lt(a, b) || comps_lt(b, a),
    decreases a.len(),
{
    if a.len() > 0 && b.len() > 0 {
        if a[0] == b[0] {
            lemma_comps_lt_total(a.drop_first(), b.drop_first());
            if a.drop_first() == b.drop_first() {
                assert(a =~= seq![a[0]] + a.drop_first());
                assert(b =~= seq![b[0]] + b.drop_first());
            }
        } else {
            lemma_comp_lt_total(a[0], b[0]);
        }
    } else if a.len() == 0 && b.len() == 0 {
        assert(a =~= b);
    }
}

pub proof fn lemma_comps_lt_asymmetric(a: Seq<Component>, b: Seq<Component>)
    requires
        comps_lt(a, b),
    ensures
        !comps_lt(b, a),
{
    if comps_lt(b, a) {
        lemma_comps_lt_transitive(a, b, a);
        lemma_comps_lt_irreflexive(a);
    }
}

// ── Executable components ───────────────────────────────────────────────────

/// Executable component: `kind` 1 = root, 2 = current dir, 3 = parent,
/// 4 = normal with its `text`.
pub struct Part {
    pub kind: u8,
    pub text: Vec<char>,
}

pub open spec fn part_view(p: Part) -> Component {
    if p.kind == 1 {
        Component::RootDir
    } else if p.kind == 2 {
        Component::CurDir
    } else if p.kind == 3 {
        Component::ParentDir
    } else {
        Component::Normal(p.text@)
    }
}

pub open spec fn parts_view(ps: Seq<Part>) -> Seq<Component> {
    ps.map_values(|p: Part| part_view(p))
}

pub open spec fn part_ok(p: Part) -> bool {
    1 <= p.kind <= 4
}

fn part_of_segment(seg: &Vec<char>) -> (r: Option<Part>)
    ensures
        seg@.len() == 0 || seg@ == seq!['.'] ==> r is None,
        !(seg@.len() == 0 || seg@ == seq!['.']) && seg@ == seq!['.', '.'] ==> r is Some && part_view(r->0) == Component::ParentDir && part_ok(r->0),
        !(seg@.len() == 0 || seg@ == seq!['.'] || seg@ == seq!['.', '.']) ==> r is Some && part_view(r->0) == Component::Normal(seg@) && part_ok(r->0),
{
    if seg.len() == 0 {
        return None;
    }
    if seg.len() == 1 && seg[0] == '.' {
        assert(seg@ =~= seq!['.']);
        return None;
    }
    if seg.len() == 2 && seg[0] == '.' && seg[1] == '.' {
        assert(seg@ =~= seq!['.', '.']);
        return Some(Part { kind: 3, text: Vec::new() });
    }
    proof {
        if seg@ == seq!['.'] {
            assert(seg@.len() == 1);
        }
        if seg@ == seq!['.', '.'] {
            assert(seg@.len() == 2);
        }
    }
    let text = copy_range(seg, 0, seg.len());
    assert(text@ =~= seg@);
    Some(Part { kind: 4, text })
}

pub proof fn lemma_segments_step(s: Seq<char>, start: int, i: int)
    requires
        0 <= start <= i < s.len(),
        s[i] == '/',
        forall|k: int| start <= k < i ==> s[k] != '/',
    ensures
        segments(s.skip(start)) == seq![s.subrange(start, i)] + segments(s.skip(i + 1)),
{
    let r = s.skip(start);
    lemma_first_index_found(r, '/', 0, i - start);
    assert(r.take(i - start) =~= s.subrange(start, i));
    assert(r.skip(i - start + 1) =~= s.skip(i + 1));
}

pub proof fn lemma_segments_last(s: Seq<char>, start: int)
    requires
        0 <= start <= s.len(),
        forall|k: int| start <= k < s.len() ==> s[k] != '/',
    ensures
        segments(s.skip(start)) == seq![s.skip(start)],
{
    lemma_first_index_none(s.skip(start), '/', 0);
}

/// The `'/'`-separated pieces of `p`.
pub fn split_segments(p: &Vec<char>) -> (r: Vec<Vec<char>>)
    ensures
        r@.map_values(|x: Vec<char>| x@) == segments(p@),
{
    let mut r: Vec<Vec<char>> = Vec::new();
    let mut start: usize = 0;
    let mut i: usize = 0;
    assert(p@.skip(0) =~= p@);
    assert(r@.map_values(|x: Vec<char>| x@) =~= Seq::<Seq<char>>::empty());
    while i < p.len()
        invariant
            0 <= start <= i <= p.len(),
            forall|k: int| start <= k < i ==> p@[k] != '/',
            r@.map_values(|x: Vec<char>| x@) + segments(p@.skip(start as int)) == segments(p@),
        decreases p.len() - i,
    {
        if p[i] == '/' {
            let seg = copy_range(p, start, i);
            proof {
                lemma_segments_step(p@, start as int, i as int);
            }
            let ghost before = r@.map_values(|x: Vec<char>| x@);
            r.push(seg);
            assert(r@.map_values(|x: Vec<char>| x@) =~= before.push(seg@));
            start = i + 1;
        }
        i = i + 1;
    }
    let seg = copy_range(p, start, p.len());
    proof {
        lemma_segments_last(p@, start as int);
        assert(seg@ =~= p@.skip(start as int));
    }
    let ghost before = r@.map_values(|x: Vec<char>| x@);
    r.push(seg);
    assert(r@.map_values(|x: Vec<char>| x@) =~= before.push(seg@));
    r
}

pub proof fn lemma_segments_nonempty(s: Seq<char>)
    ensures
        segments(s).len() >= 1,
        s.len() > 0 && s[0] == '/' ==> segments(s)[0].len() == 0,
    decreases s.len(),
{
    match first_index_from(s, '/', 0) {
        None => {},
        Some(i) => {
            if s.len() > 0 && s[0] == '/' {
                lemma_first_index_found(s, '/', 0, 0);
            }
        },
    }
}

/// Components of the path `p`.
pub fn path_components(p: &Vec<char>) -> (r: Vec<Part>)
    ensures
        parts_view(r@) == components(p@),
        forall|k: int| 0 <= k < r@.len() ==> part_ok(#[trigger] r@[k]),
{
    let segs = split_segments(p);
    let ghost sv = segs@.map_values(|x: Vec<char>| x@);
    proof {
        lemma_segments_nonempty(p@);
    }
    let mut out: Vec<Part> = Vec::new();
    let rooted = p.len() > 0 && p[0] == '/';
    let cur = !rooted && segs[0].len() == 1 && segs[0][0] == '.';
    proof {
        assert(sv[0] == segs@[0]@);
        if sv[0] == seq!['.'] {
            assert(segs@[0]@.len() == 1);
        }
        if segs@[0]@.len() == 1 && segs@[0]@[0] == '.' {
            assert(segs@[0]@ =~= seq!['.']);
        }
    }
    let start: usize;
    if rooted {
        out.push(Part { kind: 1, text: Vec::new() });
        start = 1;
    } else if cur {
        out.push(Part { kind: 2, text: Vec::new() });
        start = 1;
    } else {
        start = 0;
    }
    let ghost head = parts_view(out@);
    let mut i: usize = start;
    assert(sv.subrange(start as int, start as int) =~= Seq::<Seq<char>>::empty());
    assert(parts_view(out@) =~= head + rest_components(sv.subrange(start as int, start as int)));
    while i < segs.len()
        invariant
            start <= i <= segs.len(),
            sv == segs@.map_values(|x: Vec<char>| x@),
            head.len() == start,
            parts_view(out@) == head + rest_components(sv.subrange(start as int, i as int)),
            forall|k: int| 0 <= k < out@.len() ==> part_ok(#[trigger] out@[k]),
        decreases segs.len() - i,
    {
        let part = part_of_segment(&segs[i]);
        proof {
            assert(sv.subrange(start as int, i + 1).drop_last() =~= sv.subrange(start as int, i as int));
            assert(sv.subrange(start as int, i + 1).last() == segs@[i as int]@);
        }
        match part {
            Some(pt) => {
                let ghost before = parts_view(out@);
                out.push(pt);
                assert(parts_view(out@) =~= before.push(part_view(pt)));
            },
            None => {},
        }
        i = i + 1;
    }
    proof {
        reveal(components);
        if start == 1 {
            assert(sv.subrange(1, sv.len() as int) =~= sv.drop_first());
        } else {
            assert(sv.subrange(0, sv.len() as int) =~= sv);
        }
        if rooted {
            assert(head =~= seq![Component::RootDir]);
        } else if cur {
            assert(head =~= seq![Component::CurDir]);
        }
    }
    out
}

fn part_lt(a: &Part, b: &Part) -> (r: bool)
    requires
        part_ok(*a),
        part_ok(*b),
    ensures
        r == comp_lt(part_view(*a), part_view(*b)),
{
    if a.kind != b.kind {
        a.kind < b.kind
    } else if a.kind == 4 {
        chars_lt(&a.text, &b.text)
    } else {
        false
    }
}

fn part_eq(a: &Part, b: &Part) -> (r: bool)
    requires
        part_ok(*a),
        part_ok(*b),
    ensures
        r == (part_view(*a) == part_view(*b)),
{
    if a.kind != b.kind {
        false
    } else if a.kind == 4 {
        chars_eq(&a.text, &b.text)
    } else {
        true
    }
}

/// Three-way comparison of component lists: -1, 0 or 1.
fn parts_order(a: &Vec<Part>, b: &Vec<Part>) -> (r: i8)
    requires
        forall|k: int| 0 <= k < a@.len() ==> part_ok(#[trigger] a@[k]),
        forall|k: int| 0 <= k < b@.len() ==> part_ok(#[trigger] b@[k]),
    ensures
        r == -1 || r == 0 || r == 1,
        r == -1 <==> comps_lt(parts_view(a@), parts_view(b@)),
        r == 0 <==> parts_view(a@) == parts_view(b@),
        r == 1 <==> comps_lt(parts_view(b@), parts_view(a@)),
{
    let ghost av = parts_view(a@);
    let ghost bv = parts_view(b@);
    proof {
        lemma_comps_lt_total(av, bv);
        if comps_lt(av, bv) {
            lemma_comps_lt_asymmetric(av, bv);
            if av == bv {
                lemma_comps_lt_irreflexive(av);
            }
        }
        if comps_lt(bv, av) && av == bv {
            lemma_comps_lt_irreflexive(av);
        }
    }
    let mut i: usize = 0;
    assert(av.skip(0) =~= av);
    assert(bv.skip(0) =~= bv);
    while i < a.len() && i < b.len()
        invariant
            0 <= i <= a.len(),
            i <= b.len(),
            av == parts_view(a@),
            bv == parts_view(b@),
            forall|k: int| 0 <= k < a@.len() ==> part_ok(#[trigger] a@[k]),
            forall|k: int| 0 <= k < b@.len() ==> part_ok(#[trigger] b@[k]),
            comps_lt(av, bv) == comps_lt(av.skip(i as int), bv.skip(i as int)),
            comps_lt(bv, av) == comps_lt(bv.skip(i as int), av.skip(i as int)),
            (av == bv) == (av.skip(i as int) == bv.skip(i as int)),
        decreases a.len() - i,
    {
        proof {
            assert(av.skip(i as int)[0] == part_view(a@[i as int]));
            assert(bv.skip(i as int)[0] == part_view(b@[i as int]));
        }
        if !part_eq(&a[i], &b[i]) {
            proof {
                if av.skip(i as int) == bv.skip(i as int) {
                    assert(av.skip(i as int)[0] == bv.skip(i as int)[0]);
                }
            }
            if part_lt(&a[i], &b[i]) {
                proof {
                    lemma_comp_lt_irreflexive(part_view(a@[i as int]));
                    if comp_lt(part_view(b@[i as int]), part_view(a@[i as int])) {
                        lemma_comp_lt_transitive(part_view(a@[i as int]), part_view(b@[i as int]), part_view(a@[i as int]));
                    }
                }
                return -1;
            } else {
                proof {
                    lemma_comp_lt_total(part_view(a@[i as int]), part_view(b@[i as int]));
                }
                return 1;
            }
        }
        proof {
            assert(av.skip(i as int).drop_first() =~= av.skip(i + 1));
            assert(bv.skip(i as int).drop_first() =~= bv.skip(i + 1));
            if av.skip(i + 1) == bv.skip(i + 1) {
                assert(av.skip(i as int) =~= seq![av.skip(i as int)[0]] + av.skip(i + 1));
                assert(bv.skip(i as int) =~= seq![bv.skip(i as int)[0]] + bv.skip(i + 1));
            }
        }
        i = i + 1;
    }
    if a.len() < b.len() {
        -1
    } else if b.len() < a.len() {
        1
    } else {
        assert(av.skip(i as int) =~= bv.skip(i as int));
        0
    }
}

// ── Sorting with duplicate removal ──────────────────────────────────────────

/// `out` is strictly increasing in path order.
pub open spec fn paths_sorted(out: Seq<Seq<char>>) -> bool {
    forall|i: int, j: int| 0 <= i < j < out.len() ==> path_lt(#[trigger] out[i], #[trigger] out[j])
}

/// `x` is `input[i]`, and no earlier input is equal to it as a path.
pub open spec fn first_of_class(input: Seq<Seq<char>>, i: int, x: Seq<char>) -> bool {
    0 <= i < input.len() && input[i] == x && forall|k: int| 0 <= k < i ==> !path_eq(#[trigger] input[k], x)
}

/// Some path of `out` equals `p`.
pub open spec fn covered(p: Seq<char>, out: Seq<Seq<char>>) -> bool {
    exists|j: int| 0 <= j < out.len() && #[trigger] path_eq(p, out[j])
}

/// `x` is the first of its class among the first `n` inputs.
pub open spec fn has_origin(input: Seq<Seq<char>>, n: int, x: Seq<char>) -> bool {
    exists|i: int| 0 <= i < n && #[trigger] first_of_class(input, i, x)
}

/// `out` is the sorted, duplicate-free form of the first `n` inputs.
#[verifier::opaque]
pub open spec fn sort_progress(iv: Seq<Seq<char>>, n: int, ov: Seq<Seq<char>>) -> bool {
    &&& paths_sorted(ov)
    &&& forall|i: int| 0 <= i < n ==> covered(#[trigger] iv[i], ov)
    &&& forall|j: int| 0 <= j < ov.len() ==> has_origin(iv, n, #[trigger] ov[j])
}

/// `out` is `input` sorted by path order with equal paths removed, the
/// first of each group of equal paths being kept (a stable sort followed by
/// `dedup`).
pub open spec fn sorted_unique_paths(input: Seq<Seq<char>>, out: Seq<Seq<char>>) -> bool {
    sort_progress(input, input.len() as int, out)
}

pub proof fn lemma_sort_progress_dup(iv: Seq<Seq<char>>, n: int, ov: Seq<Seq<char>>, p: int)
    requires
        0 <= n < iv.len(),
        sort_progress(iv, n, ov),
        0 <= p < ov.len(),
        path_eq(iv[n], ov[p]),
    ensures
        sort_progress(iv, n + 1, ov),
{
    reveal(sort_progress);
    assert forall|j: int| 0 <= j < ov.len() implies has_origin(iv, n + 1, #[trigger] ov[j]) by {
        assert(has_origin(iv, n, ov[j]));
        let i = choose|i: int| 0 <= i < n && #[trigger] first_of_class(iv, i, ov[j]);
        assert(first_of_class(iv, i, ov[j]));
    }
    assert forall|i: int| 0 <= i < n + 1 implies covered(#[trigger] iv[i], ov) by {
        if i == n {
            assert(path_eq(iv[n], ov[p]));
        }
    }
}

/// Inserting `x` at `pos` keeps `ov` strictly sorted, and `x` equals none of
/// the old entries.
pub proof fn lemma_insert_sorted(ov: Seq<Seq<char>>, pos: int, x: Seq<char>)
    requires
        paths_sorted(ov),
        0 <= pos <= ov.len(),
        forall|j: int| 0 <= j < pos ==> path_lt(#[trigger] ov[j], x),
        pos < ov.len() ==> path_lt(x, ov[pos]),
    ensures
        paths_sorted(ov.insert(pos, x)),
        forall|j: int| 0 <= j < ov.len() ==> !path_eq(x, #[trigger] ov[j]),
{
    let nv = ov.insert(pos, x);
    assert forall|j: int| pos <= j < ov.len() implies path_lt(x, #[trigger] ov[j]) by {
        if j > pos {
            assert(path_lt(ov[pos], ov[j]));
            lemma_path_lt_transitive(x, ov[pos], ov[j]);
        }
    }
    assert forall|j: int| 0 <= j < ov.len() implies !path_eq(x, #[trigger] ov[j]) by {
        if j < pos {
            lemma_path_lt_not_eq(ov[j], x);
        } else {
            lemma_path_lt_not_eq(x, ov[j]);
        }
    }
    assert forall|a: int, b: int| 0 <= a < b < nv.len() implies path_lt(#[trigger] nv[a], #[trigger] nv[b]) by {
        if b < pos {
            assert(path_lt(ov[a], ov[b]));
        } else if b == pos {
            assert(path_lt(ov[a], x));
        } else if a == pos {
            assert(path_lt(x, ov[b - 1]));
        } else if a < pos {
            assert(path_lt(ov[a], x));
            assert(path_lt(x, ov[b - 1]));
            lemma_path_lt_transitive(ov[a], x, ov[b - 1]);
        } else {
            assert(path_lt(ov[a - 1], ov[b - 1]));
        }
    }
}

/// After inserting the next input, every input seen so far is still covered.
pub proof fn lemma_insert_covered(iv: Seq<Seq<char>>, n: int, ov: Seq<Seq<char>>, pos: int)
    requires
        0 <= n < iv.len(),
        0 <= pos <= ov.len(),
        forall|i: int| 0 <= i < n ==> covered(#[trigger] iv[i], ov),
    ensures
        forall|i: int| 0 <= i < n + 1 ==> covered(#[trigger] iv[i], ov.insert(pos, iv[n])),
{
    let nv = ov.insert(pos, iv[n]);
    assert forall|i: int| 0 <= i < n + 1 implies covered(#[trigger] iv[i], nv) by {
        if i == n {
            reveal(path_eq);
            assert(nv[pos] == iv[n]);
            assert(path_eq(iv[i], nv[pos]));
        } else {
            assert(covered(iv[i], ov));
            let j = choose|j: int| 0 <= j < ov.len() && #[trigger] path_eq(iv[i], ov[j]);
            if j < pos {
                assert(nv[j] == ov[j]);
                assert(path_eq(iv[i], nv[j]));
            } else {
                assert(nv[j + 1] == ov[j]);
                assert(path_eq(iv[i], nv[j + 1]));
            }
        }
    }
}

/// After inserting a new path, every entry still stems from the first input
/// of its class.
pub proof fn lemma_insert_origin(iv: Seq<Seq<char>>, n: int, ov: Seq<Seq<char>>, pos: int)
    requires
        0 <= n < iv.len(),
        0 <= pos <= ov.len(),
        forall|i: int| 0 <= i < n ==> covered(#[trigger] iv[i], ov),
        forall|j: int| 0 <= j < ov.len() ==> has_origin(iv, n, #[trigger] ov[j]),
        forall|j: int| 0 <= j < ov.len() ==> !path_eq(iv[n], #[trigger] ov[j]),
    ensures
        forall|j: int| 0 <= j < ov.len() + 1 ==> has_origin(iv, n + 1, #[trigger] ov.insert(pos, iv[n])[j]),
{
    let x = iv[n];
    let nv = ov.insert(pos, x);
    assert forall|j: int| 0 <= j < nv.len() implies has_origin(iv, n + 1, #[trigger] nv[j]) by {
        if j == pos {
            assert forall|k: int| 0 <= k < n implies !path_eq(#[trigger] iv[k], x) by {
                assert(covered(iv[k], ov));
                let jj = choose|jj: int| 0 <= jj < ov.len() && #[trigger] path_eq(iv[k], ov[jj]);
                assert(!path_eq(x, ov[jj]));
                reveal(path_eq);
            }
            assert(first_of_class(iv, n, nv[j]));
        } else {
            let jo = if j < pos { j } else { j - 1 };
            assert(nv[j] == ov[jo]);
            assert(has_origin(iv, n, ov[jo]));
            let i = choose|i: int| 0 <= i < n && #[trigger] first_of_class(iv, i, ov[jo]);
            assert(first_of_class(iv, i, nv[j]));
        }
    }
}

pub proof fn lemma_sort_progress_insert(iv: Seq<Seq<char>>, n: int, ov: Seq<Seq<char>>, pos: int)
    requires
        0 <= n < iv.len(),
        sort_progress(iv, n, ov),
        0 <= pos <= ov.len(),
        forall|j: int| 0 <= j < pos ==> path_lt(#[trigger] ov[j], iv[n]),
        pos < ov.len() ==> path_lt(iv[n], ov[pos]),
    ensures
        sort_progress(iv, n + 1, ov.insert(pos, iv[n])),
{
    reveal(sort_progress);
    lemma_insert_sorted(ov, pos, iv[n]);
    lemma_insert_covered(iv, n, ov, pos);
    lemma_insert_origin(iv, n, ov, pos);
    assert(ov.insert(pos, iv[n]).len() == ov.len() + 1);
}

/// Position of `cp` among the sorted component lists `comps`: either an
/// equal entry, or the first entry above it.
fn find_position(comps: &Vec<Vec<Part>>, cp: &Vec<Part>) -> (r: (usize, bool))
    requires
        forall|j: int, k: int| 0 <= j < comps@.len() && 0 <= k < comps@[j]@.len() ==> part_ok(#[trigger] comps@[j]@[k]),
        forall|k: int| 0 <= k < cp@.len() ==> part_ok(#[trigger] cp@[k]),
    ensures
        r.0 <= comps@.len(),
        r.1 ==> r.0 < comps@.len() && parts_view(comps@[r.0 as int]@) == parts_view(cp@),
        !r.1 ==> (forall|j: int| 0 <= j < r.0 ==> comps_lt(parts_view(#[trigger] comps@[j]@), parts_view(cp@))),
        !r.1 && r.0 < comps@.len() ==> comps_lt(parts_view(cp@), parts_view(comps@[r.0 as int]@)),
{
    let mut pos: usize = 0;
    while pos < comps.len()
        invariant
            0 <= pos <= comps@.len(),
            forall|j: int, k: int| 0 <= j < comps@.len() && 0 <= k < comps@[j]@.len() ==> part_ok(#[trigger] comps@[j]@[k]),
            forall|k: int| 0 <= k < cp@.len() ==> part_ok(#[trigger] cp@[k]),
            forall|j: int| 0 <= j < pos ==> comps_lt(parts_view(#[trigger] comps@[j]@), parts_view(cp@)),
        decreases comps@.len() - pos,
    {
        let c = parts_order(&comps[pos], cp);
        if c == 0 {
            return (pos, true);
        }
        if c == 1 {
            return (pos, false);
        }
        pos = pos + 1;
    }
    (pos, false)
}

/// Sorts `input` by path order and removes equal paths, keeping the first.
pub fn sort_dedup_paths(input: &Vec<String>) -> (out: Vec<String>)
    ensures
        sorted_unique_paths(input@.map_values(|s: String| s@), out@.map_values(|s: String| s@)),
{
    let ghost iv = input@.map_values(|s: String| s@);
    let mut out: Vec<String> = Vec::new();
    let mut comps: Vec<Vec<Part>> = Vec::new();
    let mut n: usize = 0;
    assert(out@.map_values(|s: String| s@) =~= Seq::<Seq<char>>::empty());
    proof {
        reveal(sort_progress);
    }
    while n < input.len()
        invariant
            0 <= n <= input.len(),
            iv == input@.map_values(|s: String| s@),
            comps@.len() == out@.len(),
            forall|j: int| 0 <= j < out@.len() ==> parts_view(#[trigger] comps@[j]@) == components(out@[j]@),
            forall|j: int, k: int| 0 <= j < comps@.len() && 0 <= k < comps@[j]@.len() ==> part_ok(#[trigger] comps@[j]@[k]),
            sort_progress(iv, n as int, out@.map_values(|s: String| s@)),
        decreases input.len() - n,
    {
        let pc = chars_of(input[n].as_str());
        let cp = path_components(&pc);
        let ghost x = iv[n as int];
        assert(x == input@[n as int]@);
        let ghost ov = out@.map_values(|s: String| s@);
        let (pos, dup) = find_position(&comps, &cp);
        if dup {
            proof {
                assert(ov[pos as int] == out@[pos as int]@);
                reveal(path_eq);
                lemma_sort_progress_dup(iv, n as int, ov, pos as int);
            }
        } else {
            proof {
                reveal(path_lt);
                assert forall|j: int| 0 <= j < pos implies path_lt(#[trigger] ov[j], iv[n as int]) by {
                    assert(ov[j] == out@[j]@);
                    assert(comps_lt(parts_view(comps@[j]@), parts_view(cp@)));
                }
                if pos < ov.len() {
                    assert(ov[pos as int] == out@[pos as int]@);
                }
                lemma_sort_progress_insert(iv, n as int, ov, pos as int);
            }
            let s = input[n].clone();
            let ghost old_comps = comps@;
            let ghost old_out = out@;
            out.insert(pos, s);
            comps.insert(pos, cp);
            proof {
                assert(out@.map_values(|s: String| s@) =~= ov.insert(pos as int, x));
                assert forall|j: int| 0 <= j < out@.len() implies parts_view(#[trigger] comps@[j]@) == components(out@[j]@) by {
                    if j < pos {
                        assert(comps@[j] == old_comps[j]);
                        assert(out@[j] == old_out[j]);
                    } else if j > pos {
                        assert(comps@[j] == old_comps[j - 1]);
                        assert(out@[j] == old_out[j - 1]);
                    }
                }
                assert forall|j: int, k: int| 0 <= j < comps@.len() && 0 <= k < comps@[j]@.len() implies part_ok(#[trigger] comps@[j]@[k]) by {
                    if j < pos {
                        assert(comps@[j] == old_comps[j]);
                    } else if j > pos {
                        assert(comps@[j] == old_comps[j - 1]);
                    }
                }
            }
        }
        n = n + 1;
    }
    out
}

} // verus!
