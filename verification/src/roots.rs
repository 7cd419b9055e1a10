//! Ordered sets of paths: the scan roots handed to the virus scanner and the
//! subtrees it must skip.
//!
//! Paths are compared as `Path` compares them: component by component. Of
//! several strings naming the same components, the first one given is kept,
//! as an ordered set keeps the first of equal keys.
use vstd::prelude::*;
use crate::paths::{
    PathParts, comps_lt, comps_start_with, path_comps, lemma_comps_lt_strict,
    lemma_comps_lt_trans, lemma_prefix_comps_lt,
};

verus! {

/// `v[i]` is the first string of `v` that names its components.
pub open spec fn first_occurrence(v: Seq<Seq<char>>, i: int) -> bool {
    &&& 0 <= i < v.len()
    &&& forall|j: int| 0 <= j < i ==> path_comps(#[trigger] v[j]) != path_comps(v[i])
}

/// The paths are in strictly increasing order (so no two name the same
/// components).
pub open spec fn sorted_paths(r: Seq<Seq<char>>) -> bool {
    forall|a: int, b: int|
        0 <= a < b < r.len() ==> comps_lt(path_comps(#[trigger] r[a]), path_comps(#[trigger] r[b]))
}

/// `x` is the first string of `v` that names its path.
pub open spec fn is_first_of(v: Seq<Seq<char>>, x: Seq<char>) -> bool {
    exists|i: int| #[trigger] first_occurrence(v, i) && v[i] == x
}

/// `r` lists, in `Path` order, the first string of `v` for each distinct path.
pub open spec fn is_sorted_set_of(r: Seq<Seq<char>>, v: Seq<Seq<char>>) -> bool {
    &&& sorted_paths(r)
    &&& forall|k: int| 0 <= k < r.len() ==> is_first_of(v, #[trigger] r[k])
    &&& forall|i: int| #[trigger] first_occurrence(v, i) ==> r.contains(v[i])
}

/// The components of each string.
fn parse_all(v: &Vec<String>) -> (ps: Vec<PathParts>)
    ensures
        ps@.len() == v@.len(),
        forall|i: int| 0 <= i < ps@.len() ==> (#[trigger] ps@[i]).wf() && ps@[i].comps() == path_comps(v@[i]@),
{
    let mut ps: Vec<PathParts> = Vec::new();
    let mut i: usize = 0;
    while i < v.len()
        invariant
            i <= v@.len(),
            ps@.len() == i,
            forall|k: int| 0 <= k < i ==> (#[trigger] ps@[k]).wf() && ps@[k].comps() == path_comps(v@[k]@),
        decreases v@.len() - i,
    {
        ps.push(PathParts::parse(v[i].as_str()));
        i += 1;
    }
    ps
}

/// The distinct paths of `v` in `Path` order, each as first written in `v`
/// (what collecting them into a `BTreeSet<PathBuf>` and reading it back gives).
pub fn sorted_unique(v: &Vec<String>) -> (r: Vec<String>)
    ensures
        is_sorted_set_of(r.deep_view(), v.deep_view()),
{
    let ghost vv = v.deep_view();
    assert(forall|k: int| 0 <= k < v@.len() ==> #[trigger] vv[k] == v@[k]@);
    let ps = parse_all(v);
    let n = v.len();
    // Indices into `v` of the kept strings, in order.
    let mut idx: Vec<usize> = Vec::new();
    let mut i: usize = 0;
    while i < n
        invariant
            n == v@.len(),
            vv == v.deep_view(),
            forall|k: int| 0 <= k < v@.len() ==> #[trigger] vv[k] == v@[k]@,
            ps@.len() == n,
            i <= n,
            forall|k: int| 0 <= k < ps@.len() ==> (#[trigger] ps@[k]).wf() && ps@[k].comps() == path_comps(v@[k]@),
            forall|a: int| 0 <= a < idx@.len() ==> #[trigger] idx@[a] < i && first_occurrence(vv, idx@[a] as int),
            forall|a: int, b: int|
                0 <= a < b < idx@.len() ==> comps_lt(
                    path_comps(vv[#[trigger] idx@[a] as int]),
                    path_comps(vv[#[trigger] idx@[b] as int]),
                ),
            forall|j: int| 0 <= j < i && #[trigger] first_occurrence(vv, j) ==> idx@.contains(j as usize),
        decreases n - i,
    {
        // Is an earlier string the same path?
        let mut seen = false;
        let mut j: usize = 0;
        while j < i
            invariant
                i < n,
                n == v@.len(),
                vv == v.deep_view(),
                forall|k: int| 0 <= k < v@.len() ==> #[trigger] vv[k] == v@[k]@,
            forall|k: int| 0 <= k < v@.len() ==> #[trigger] vv[k] == v@[k]@,
                ps@.len() == n,
                forall|k: int| 0 <= k < ps@.len() ==> (#[trigger] ps@[k]).wf() && ps@[k].comps() == path_comps(v@[k]@),
                j <= i,
                seen == exists|k: int| 0 <= k < j && path_comps(#[trigger] vv[k]) == path_comps(vv[i as int]),
            decreases i - j,
        {
            if ps[j].equals_parts(&ps[i]) {
                assert(path_comps(vv[j as int]) == path_comps(vv[i as int]));
                seen = true;
            }
            j += 1;
        }
        if !seen {
            assert(first_occurrence(vv, i as int));
            // Find where it goes.
            let mut p: usize = 0;
            while p < idx.len() && ps[idx[p]].sorts_before(&ps[i])
                invariant
                    i < n,
                    n == v@.len(),
                    vv == v.deep_view(),
                    forall|k: int| 0 <= k < v@.len() ==> #[trigger] vv[k] == v@[k]@,
                forall|k: int| 0 <= k < v@.len() ==> #[trigger] vv[k] == v@[k]@,
            forall|k: int| 0 <= k < v@.len() ==> #[trigger] vv[k] == v@[k]@,
                    ps@.len() == n,
                    forall|k: int| 0 <= k < ps@.len() ==> (#[trigger] ps@[k]).wf() && ps@[k].comps() == path_comps(v@[k]@),
                    forall|a: int| 0 <= a < idx@.len() ==> #[trigger] idx@[a] < i,
                    p <= idx@.len(),
                    forall|a: int| 0 <= a < p ==> comps_lt(path_comps(vv[#[trigger] idx@[a] as int]), path_comps(vv[i as int])),
                decreases idx@.len() - p,
            {
                p += 1;
            }
            let ghost old_idx = idx@;
            proof {
                if p < old_idx.len() {
                    let x = path_comps(vv[old_idx[p as int] as int]);
                    let y = path_comps(vv[i as int]);
                    lemma_comps_lt_strict(x, y);
                    assert(x != y);
                    assert(comps_lt(y, x));
                    assert forall|b: int| p < b < old_idx.len() implies comps_lt(
                        y,
                        path_comps(vv[#[trigger] old_idx[b] as int]),
                    ) by {
                        lemma_comps_lt_trans(y, x, path_comps(vv[old_idx[b] as int]));
                    }
                }
            }
            idx.insert(p, i);
            proof {
                assert(idx@ == old_idx.insert(p as int, i));
                assert forall|j: int| 0 <= j <= i && #[trigger] first_occurrence(vv, j) implies idx@.contains(j as usize) by {
                    if j == i {
                        assert(idx@[p as int] == i);
                    } else {
                        assert(old_idx.contains(j as usize));
                        let a = choose|a: int| 0 <= a < old_idx.len() && old_idx[a] == j as usize;
                        if a < p {
                            assert(idx@[a] == j as usize);
                        } else {
                            assert(idx@[a + 1] == j as usize);
                        }
                    }
                }
                assert forall|a: int, b: int| 0 <= a < b < idx@.len() implies comps_lt(
                    path_comps(vv[#[trigger] idx@[a] as int]),
                    path_comps(vv[#[trigger] idx@[b] as int]),
                ) by {
                    if b < p {
                    } else if b == p {
                    } else if a < p {
                        assert(idx@[b] == old_idx[b - 1]);
                        if p < old_idx.len() {
                            let x = path_comps(vv[old_idx[p as int] as int]);
                            let y = path_comps(vv[i as int]);
                            lemma_comps_lt_trans(path_comps(vv[old_idx[a] as int]), y, path_comps(vv[old_idx[b - 1] as int]));
                        }
                    } else if a == p {
                    } else {
                        assert(idx@[a] == old_idx[a - 1]);
                        assert(idx@[b] == old_idx[b - 1]);
                    }
                }
            }
        } else {
            proof {
                assert(!first_occurrence(vv, i as int));
                assert forall|j: int| 0 <= j <= i && #[trigger] first_occurrence(vv, j) implies idx@.contains(j as usize) by {
                    if j == i {
                        assert(false);
                    }
                }
            }
        }
        i += 1;
    }
    // Read the kept strings out in order.
    let mut r: Vec<String> = Vec::new();
    let mut t: usize = 0;
    while t < idx.len()
        invariant
            n == v@.len(),
            vv == v.deep_view(),
            forall|k: int| 0 <= k < v@.len() ==> #[trigger] vv[k] == v@[k]@,
            forall|a: int| 0 <= a < idx@.len() ==> #[trigger] idx@[a] < n,
            t <= idx@.len(),
            r@.len() == t,
            forall|a: int| 0 <= a < t ==> #[trigger] r@[a]@ == vv[idx@[a] as int],
        decreases idx@.len() - t,
    {
        r.push(v[idx[t]].clone());
        t += 1;
    }
    proof {
        let rv = r.deep_view();
        assert forall|a: int| 0 <= a < rv.len() implies #[trigger] rv[a] == vv[idx@[a] as int] by {}
        assert forall|a: int, b: int| 0 <= a < b < rv.len() implies comps_lt(
            path_comps(#[trigger] rv[a]),
            path_comps(#[trigger] rv[b]),
        ) by {
            assert(rv[a] == vv[idx@[a] as int]);
            assert(rv[b] == vv[idx@[b] as int]);
        }
        assert forall|k: int| 0 <= k < rv.len() implies is_first_of(vv, #[trigger] rv[k]) by {
            assert(first_occurrence(vv, idx@[k] as int));
        }
        assert forall|i: int| #[trigger] first_occurrence(vv, i) implies rv.contains(vv[i]) by {
            assert(idx@.contains(i as usize));
            let a = choose|a: int| 0 <= a < idx@.len() && idx@[a] == i as usize;
            assert(rv[a] == vv[i]);
        }

    }
    r
}


/// `a` names a path strictly above `b`.
pub open spec fn strictly_above(a: Seq<Seq<char>>, b: Seq<Seq<char>>) -> bool {
    comps_start_with(b, a) && a.len() < b.len()
}

/// Some string of `v` names a path strictly above `c`.
pub open spec fn has_ancestor_in(v: Seq<Seq<char>>, c: Seq<Seq<char>>) -> bool {
    exists|j: int| 0 <= j < v.len() && strictly_above(path_comps(#[trigger] v[j]), c)
}

/// `v[i]` is a scan root: the first string for its path, and no string of
/// `v` names a path above it.
pub open spec fn is_scan_root(v: Seq<Seq<char>>, i: int) -> bool {
    first_occurrence(v, i) && !has_ancestor_in(v, path_comps(v[i]))
}

/// `x` is a scan root of `v`.
pub open spec fn is_root_of(v: Seq<Seq<char>>, x: Seq<char>) -> bool {
    exists|i: int| #[trigger] is_scan_root(v, i) && v[i] == x
}

/// Some path of `r` is `c` or above it.
pub open spec fn covered_by(r: Seq<Seq<char>>, c: Seq<Seq<char>>) -> bool {
    exists|k: int| 0 <= k < r.len() && comps_start_with(c, path_comps(#[trigger] r[k]))
}

proof fn lemma_start_with_refl(c: Seq<Seq<char>>)
    ensures
        comps_start_with(c, c),
{
    assert(c.subrange(0, c.len() as int) =~= c);
}

proof fn lemma_start_with_trans(a: Seq<Seq<char>>, b: Seq<Seq<char>>, c: Seq<Seq<char>>)
    requires
        comps_start_with(b, a),
        comps_start_with(c, b),
    ensures
        comps_start_with(c, a),
{
    assert(c.subrange(0, a.len() as int) =~= b.subrange(0, a.len() as int));
}

/// A path that starts with another and differs from it lies strictly below it.
proof fn lemma_start_with_strict(c: Seq<Seq<char>>, p: Seq<Seq<char>>)
    requires
        comps_start_with(c, p),
        c != p,
    ensures
        strictly_above(p, c),
{
    if p.len() == c.len() {
        assert(c.subrange(0, c.len() as int) =~= c);
    }
}

proof fn lemma_first_of_path(v: Seq<Seq<char>>, j: int)
    requires
        0 <= j < v.len(),
    ensures
        exists|i: int| #[trigger] first_occurrence(v, i) && path_comps(v[i]) == path_comps(v[j]),
    decreases j,
{
    if !first_occurrence(v, j) {
        let k = choose|k: int| 0 <= k < j && path_comps(#[trigger] v[k]) == path_comps(v[j]);
        lemma_first_of_path(v, k);
    }
}

/// Whatever has an ancestor in `v` has a scan root of `v` above it.
proof fn lemma_root_above(v: Seq<Seq<char>>, c: Seq<Seq<char>>, j: int)
    requires
        0 <= j < v.len(),
        strictly_above(path_comps(v[j]), c),
    ensures
        exists|i: int| #[trigger] is_scan_root(v, i) && strictly_above(path_comps(v[i]), c),
    decreases path_comps(v[j]).len(),
{
    lemma_first_of_path(v, j);
    let f = choose|f: int| #[trigger] first_occurrence(v, f) && path_comps(v[f]) == path_comps(v[j]);
    if has_ancestor_in(v, path_comps(v[f])) {
        let j2 = choose|j2: int| 0 <= j2 < v.len() && strictly_above(path_comps(#[trigger] v[j2]), path_comps(v[f]));
        lemma_start_with_trans(path_comps(v[j2]), path_comps(v[f]), c);
        lemma_root_above(v, c, j2);
    } else {
        assert(is_scan_root(v, f));
    }
}

/// The scan roots among `paths`, in `Path` order: every path is reduced to
/// the first string naming it, and paths lying under another one are dropped.
pub fn dedup_scan_roots(paths: Vec<String>) -> (r: Vec<String>)
    ensures
        sorted_paths(r.deep_view()),
        forall|k: int| 0 <= k < r@.len() ==> is_root_of(paths.deep_view(), #[trigger] r.deep_view()[k]),
        forall|i: int| #[trigger] is_scan_root(paths.deep_view(), i) ==> r.deep_view().contains(paths.deep_view()[i]),
        forall|i: int| 0 <= i < paths@.len() ==> covered_by(r.deep_view(), path_comps(#[trigger] paths.deep_view()[i])),
        forall|a: int, b: int| 0 <= a < r@.len() && 0 <= b < r@.len() && a != b ==> !comps_start_with(
            path_comps(#[trigger] r.deep_view()[a]),
            path_comps(#[trigger] r.deep_view()[b]),
        ),
{
    let ghost vv = paths.deep_view();
    let s = sorted_unique(&paths);
    let ghost sv = s.deep_view();
    assert(forall|k: int| 0 <= k < s@.len() ==> #[trigger] sv[k] == s@[k]@);
    let ps = parse_all(&s);
    let n = s.len();
    let mut keep: Vec<usize> = Vec::new();
    let mut t: usize = 0;
    while t < n
        invariant
            n == s@.len(),
            sv == s.deep_view(),
            forall|k: int| 0 <= k < s@.len() ==> #[trigger] sv[k] == s@[k]@,
            is_sorted_set_of(sv, vv),
            ps@.len() == n,
            forall|k: int| 0 <= k < ps@.len() ==> (#[trigger] ps@[k]).wf() && ps@[k].comps() == path_comps(s@[k]@),
            t <= n,
            forall|a: int| 0 <= a < keep@.len() ==> #[trigger] keep@[a] < t && !has_ancestor_in(vv, path_comps(sv[keep@[a] as int])),
            forall|a: int, b: int| 0 <= a < b < keep@.len() ==> #[trigger] keep@[a] < #[trigger] keep@[b],
            forall|u: int| 0 <= u < t && !has_ancestor_in(vv, path_comps(#[trigger] sv[u])) ==> keep@.contains(u as usize),
        decreases n - t,
    {
        let mut under = false;
        let mut a: usize = 0;
        while a < keep.len()
            invariant
                n == s@.len(),
                t < n,
                ps@.len() == n,
                forall|k: int| 0 <= k < ps@.len() ==> (#[trigger] ps@[k]).wf() && ps@[k].comps() == path_comps(s@[k]@),
                forall|k: int| 0 <= k < s@.len() ==> #[trigger] sv[k] == s@[k]@,
                forall|b: int| 0 <= b < keep@.len() ==> #[trigger] keep@[b] < t,
                a <= keep@.len(),
                under == exists|b: int| 0 <= b < a && comps_start_with(path_comps(sv[t as int]), path_comps(sv[#[trigger] keep@[b] as int])),
            decreases keep@.len() - a,
        {
            if ps[t].starts_with_parts(&ps[keep[a]]) {
                under = true;
            }
            a += 1;
        }
        let ghost ct = path_comps(sv[t as int]);
        let ghost old_keep = keep@;
        if under {
            proof {
                let b = choose|b: int| 0 <= b < keep@.len() && comps_start_with(ct, path_comps(sv[#[trigger] keep@[b] as int]));
                let u = keep@[b] as int;
                let cu = path_comps(sv[u]);
                lemma_comps_lt_strict(cu, ct);
                lemma_start_with_strict(ct, cu);
                assert(is_first_of(vv, sv[u]));
                let i = choose|i: int| #[trigger] first_occurrence(vv, i) && vv[i] == sv[u];
                assert(strictly_above(path_comps(vv[i]), ct));
                assert(has_ancestor_in(vv, ct));
            }
        } else {
            proof {
                if has_ancestor_in(vv, ct) {
                    let j = choose|j: int| 0 <= j < vv.len() && strictly_above(path_comps(#[trigger] vv[j]), ct);
                    lemma_root_above(vv, ct, j);
                    let i = choose|i: int| #[trigger] is_scan_root(vv, i) && strictly_above(path_comps(vv[i]), ct);
                    assert(first_occurrence(vv, i));
                    assert(sv.contains(vv[i]));
                    let u = choose|u: int| 0 <= u < sv.len() && sv[u] == vv[i];
                    let cu = path_comps(sv[u]);
                    lemma_prefix_comps_lt(cu, ct);
                    lemma_comps_lt_strict(cu, ct);
                    if u > t {
                        assert(comps_lt(ct, path_comps(sv[u])));
                    }
                    assert(u < t);
                    assert(keep@.contains(u as usize));
                    let b = choose|b: int| 0 <= b < keep@.len() && keep@[b] == u as usize;
                    assert(comps_start_with(ct, path_comps(sv[keep@[b] as int])));
                    assert(false);
                }
            }
            keep.push(t);
        }
        proof {
            assert forall|u: int| 0 <= u < t + 1 && !has_ancestor_in(vv, path_comps(#[trigger] sv[u])) implies keep@.contains(u as usize) by {
                if u == t {
                    assert(keep@[keep@.len() - 1] == t);
                } else {
                    assert(old_keep.contains(u as usize));
                    let b = choose|b: int| 0 <= b < old_keep.len() && old_keep[b] == u as usize;
                    assert(keep@[b] == u as usize);
                }
            }
        }
        t += 1;
    }
    let mut r: Vec<String> = Vec::new();
    let mut a: usize = 0;
    while a < keep.len()
        invariant
            n == s@.len(),
            forall|k: int| 0 <= k < s@.len() ==> #[trigger] sv[k] == s@[k]@,
            forall|b: int| 0 <= b < keep@.len() ==> #[trigger] keep@[b] < n,
            a <= keep@.len(),
            r@.len() == a,
            forall|b: int| 0 <= b < a ==> #[trigger] r@[b]@ == sv[keep@[b] as int],
        decreases keep@.len() - a,
    {
        r.push(s[keep[a]].clone());
        a += 1;
    }
    proof {
        let rv = r.deep_view();
        assert forall|b: int| 0 <= b < rv.len() implies #[trigger] rv[b] == sv[keep@[b] as int] by {}
        assert forall|x: int, y: int| 0 <= x < y < rv.len() implies comps_lt(
            path_comps(#[trigger] rv[x]),
            path_comps(#[trigger] rv[y]),
        ) by {
            assert(rv[x] == sv[keep@[x] as int]);
            assert(rv[y] == sv[keep@[y] as int]);
            assert(keep@[x] < keep@[y]);
        }
        assert forall|k: int| 0 <= k < r@.len() implies is_root_of(vv, #[trigger] rv[k]) by {
            let u = keep@[k] as int;
            assert(rv[k] == sv[u]);
            assert(is_first_of(vv, sv[u]));
            let i = choose|i: int| #[trigger] first_occurrence(vv, i) && vv[i] == sv[u];
            assert(is_scan_root(vv, i));
        }
        assert forall|i: int| #[trigger] is_scan_root(vv, i) implies rv.contains(vv[i]) by {
            assert(sv.contains(vv[i]));
            let u = choose|u: int| 0 <= u < sv.len() && sv[u] == vv[i];
            assert(keep@.contains(u as usize));
            let b = choose|b: int| 0 <= b < keep@.len() && keep@[b] == u as usize;
            assert(rv[b] == vv[i]);
        }
        assert forall|i: int| 0 <= i < paths@.len() implies covered_by(rv, path_comps(#[trigger] vv[i])) by {
            let c = path_comps(vv[i]);
            lemma_first_of_path(vv, i);
            let f = choose|f: int| #[trigger] first_occurrence(vv, f) && path_comps(vv[f]) == c;
            let g = if has_ancestor_in(vv, c) {
                let j = choose|j: int| 0 <= j < vv.len() && strictly_above(path_comps(#[trigger] vv[j]), c);
                lemma_root_above(vv, c, j);
                choose|g: int| #[trigger] is_scan_root(vv, g) && strictly_above(path_comps(vv[g]), c)
            } else {
                assert(is_scan_root(vv, f));
                lemma_start_with_refl(c);
                f
            };
            assert(is_scan_root(vv, g) && comps_start_with(c, path_comps(vv[g])));
            assert(rv.contains(vv[g]));
            let k = choose|k: int| 0 <= k < rv.len() && rv[k] == vv[g];
            assert(comps_start_with(c, path_comps(rv[k])));
        }
        assert forall|x: int, y: int| 0 <= x < r@.len() && 0 <= y < r@.len() && x != y implies !comps_start_with(
            path_comps(#[trigger] rv[x]),
            path_comps(#[trigger] rv[y]),
        ) by {
            let cx = path_comps(rv[x]);
            let cy = path_comps(rv[y]);
            if comps_start_with(cx, cy) {
                if x < y {
                    lemma_comps_lt_strict(cx, cy);
                } else {
                    lemma_comps_lt_strict(cy, cx);
                }
                lemma_start_with_strict(cx, cy);
                assert(is_root_of(vv, rv[x]));
                assert(is_root_of(vv, rv[y]));
                let i = choose|i: int| #[trigger] is_scan_root(vv, i) && vv[i] == rv[x];
                let j = choose|j: int| #[trigger] is_scan_root(vv, j) && vv[j] == rv[y];
                assert(has_ancestor_in(vv, path_comps(vv[i])));
            }
        }
    }
    r
}

// ── Reducing twice ──────────────────────────────────────────────────────────

/// Two lists in strictly increasing `Path` order that hold the same strings
/// are the same list.
proof fn lemma_sorted_same(a: Seq<Seq<char>>, b: Seq<Seq<char>>)
    requires
        sorted_paths(a),
        sorted_paths(b),
        forall|i: int| 0 <= i < a.len() ==> b.contains(#[trigger] a[i]),
        forall|k: int| 0 <= k < b.len() ==> a.contains(#[trigger] b[k]),
    ensures
        a == b,
    decreases a.len() + b.len(),
{
    if a.len() == 0 {
        if b.len() > 0 {
            assert(a.contains(b[0]));
        }
        assert(a =~= b);
    } else if b.len() == 0 {
        assert(b.contains(a[0]));
    } else {
        assert(b.contains(a[0]));
        let k = choose|k: int| 0 <= k < b.len() && b[k] == a[0];
        assert(a.contains(b[0]));
        let i = choose|i: int| 0 <= i < a.len() && a[i] == b[0];
        if i > 0 {
            assert(comps_lt(path_comps(a[0]), path_comps(a[i])));
            if k > 0 {
                assert(comps_lt(path_comps(b[0]), path_comps(b[k])));
                lemma_comps_lt_strict(path_comps(a[0]), path_comps(b[0]));
            } else {
                lemma_comps_lt_strict(path_comps(a[0]), path_comps(a[0]));
            }
        }
        assert(a[0] == b[0]);
        let a1 = a.drop_first();
        let b1 = b.drop_first();
        assert forall|x: int, y: int| 0 <= x < y < a1.len() implies comps_lt(path_comps(#[trigger] a1[x]), path_comps(#[trigger] a1[y])) by {
            assert(a1[x] == a[x + 1] && a1[y] == a[y + 1]);
        }
        assert forall|x: int, y: int| 0 <= x < y < b1.len() implies comps_lt(path_comps(#[trigger] b1[x]), path_comps(#[trigger] b1[y])) by {
            assert(b1[x] == b[x + 1] && b1[y] == b[y + 1]);
        }
        assert forall|x: int| 0 <= x < a1.len() implies b1.contains(#[trigger] a1[x]) by {
            assert(a1[x] == a[x + 1]);
            assert(b.contains(a[x + 1]));
            let m = choose|m: int| 0 <= m < b.len() && b[m] == a[x + 1];
            assert(comps_lt(path_comps(a[0]), path_comps(a[x + 1])));
            if m == 0 {
                lemma_comps_lt_strict(path_comps(a[0]), path_comps(a[0]));
            }
            assert(b1[m - 1] == b[m]);
        }
        assert forall|y: int| 0 <= y < b1.len() implies a1.contains(#[trigger] b1[y]) by {
            assert(b1[y] == b[y + 1]);
            assert(a.contains(b[y + 1]));
            let m = choose|m: int| 0 <= m < a.len() && a[m] == b[y + 1];
            assert(comps_lt(path_comps(b[0]), path_comps(b[y + 1])));
            if m == 0 {
                lemma_comps_lt_strict(path_comps(b[0]), path_comps(b[0]));
            }
            assert(a1[m - 1] == a[m]);
        }
        lemma_sorted_same(a1, b1);
        assert(a =~= seq![a[0]] + a1);
        assert(b =~= seq![b[0]] + b1);
    }
}

/// Reducing scan roots twice changes nothing: when `r` is what
/// `dedup_scan_roots` returns for some paths (in strictly increasing order,
/// none under another) and `r2` is what it returns for `r` (its contract, as
/// stated on `dedup_scan_roots`), then `r2` is `r`.
pub proof fn law_dedup_idempotent(r: Seq<Seq<char>>, r2: Seq<Seq<char>>)
    requires
        sorted_paths(r),
        forall|a: int, b: int| 0 <= a < r.len() && 0 <= b < r.len() && a != b ==> !comps_start_with(
            path_comps(#[trigger] r[a]),
            path_comps(#[trigger] r[b]),
        ),
        sorted_paths(r2),
        forall|k: int| 0 <= k < r2.len() ==> is_root_of(r, #[trigger] r2[k]),
        forall|i: int| #[trigger] is_scan_root(r, i) ==> r2.contains(r[i]),
    ensures
        r2 == r,
{
    assert forall|i: int| 0 <= i < r.len() implies r2.contains(#[trigger] r[i]) by {
        assert forall|j: int| 0 <= j < i implies path_comps(#[trigger] r[j]) != path_comps(r[i]) by {
            assert(comps_lt(path_comps(r[j]), path_comps(r[i])));
            lemma_comps_lt_strict(path_comps(r[i]), path_comps(r[i]));
        }
        assert(first_occurrence(r, i));
        if has_ancestor_in(r, path_comps(r[i])) {
            let j = choose|j: int| 0 <= j < r.len() && strictly_above(path_comps(#[trigger] r[j]), path_comps(r[i]));
            assert(j != i);
            assert(comps_start_with(path_comps(r[i]), path_comps(r[j])));
        }
        assert(is_scan_root(r, i));
    }
    assert forall|k: int| 0 <= k < r2.len() implies r.contains(#[trigger] r2[k]) by {
        assert(is_root_of(r, r2[k]));
        let i = choose|i: int| #[trigger] is_scan_root(r, i) && r[i] == r2[k];
    }
    lemma_sorted_same(r, r2);
}


} // verus!
