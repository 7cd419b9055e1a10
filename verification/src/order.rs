//! Stable orderings of keyed lists: largest size first, or by text key.
//! Each list item carries its key beside it, so the ordering is stated over
//! the items themselves.
use vstd::prelude::*;
use crate::brew::name_lt;
use crate::paths::chars_lt;

verus! {

/// Where an item of size `size` goes in `s` (already largest first): after
/// every item that is at least as large.
pub open spec fn size_pos<T>(s: Seq<(u64, T)>, size: u64, j: int) -> int
    decreases s.len() - j,
{
    if j < 0 || j >= s.len() {
        s.len() as int
    } else if s[j].0 < size {
        j
    } else {
        size_pos(s, size, j + 1)
    }
}

/// `s` ordered by size, largest first; items of equal size keep their order
/// (a stable sort on the reversed size).
pub open spec fn largest_first<T>(s: Seq<(u64, T)>) -> Seq<(u64, T)>
    decreases s.len(),
{
    if s.len() == 0 {
        s
    } else {
        let r = largest_first(s.drop_last());
        r.insert(size_pos(r, s.last().0, 0), s.last())
    }
}

/// Orders `v` by size, largest first, keeping the order of equal sizes.
pub fn sort_largest_first<T>(v: Vec<(u64, T)>) -> (r: Vec<(u64, T)>)
    ensures
        r@ == largest_first(v@),
{
    let ghost input = v@;
    let mut rest = v;
    let n: usize = rest.len();
    let mut out: Vec<(u64, T)> = Vec::new();
    let mut k: usize = 0;
    while rest.len() > 0
        invariant
            rest@ == input.skip(k as int),
            k <= input.len(),
            input.len() == n,
            out@ == largest_first(input.take(k as int)),
        decreases rest@.len(),
    {
        let item = rest.remove(0);
        let ghost sorted = out@;
        let mut j: usize = 0;
        while j < out.len() && !(out[j].0 < item.0)
            invariant
                sorted == out@,
                j <= out@.len(),
                size_pos(sorted, item.0, 0) == size_pos(sorted, item.0, j as int),
            decreases out@.len() - j,
        {
            j += 1;
        }
        let ghost it = item;
        out.insert(j, item);
        proof {
            assert(input.take(k + 1).drop_last() =~= input.take(k as int));
            assert(input.take(k + 1).last() == it);
            assert(input.skip(k as int).remove(0) =~= input.skip(k + 1));
        }
        k += 1;
    }
    assert(input.take(k as int) =~= input);
    out
}

/// Where an item keyed `key` goes in `s` (already ordered): after every item
/// whose key is not larger.
pub open spec fn key_pos<T>(s: Seq<(Seq<char>, T)>, key: Seq<char>, j: int) -> int
    decreases s.len() - j,
{
    if j < 0 || j >= s.len() {
        s.len() as int
    } else if chars_lt(key, s[j].0) {
        j
    } else {
        key_pos(s, key, j + 1)
    }
}

/// `s` ordered by key (`str::cmp`), items of equal keys kept in order (a
/// stable sort).
pub open spec fn by_key<T>(s: Seq<(Seq<char>, T)>) -> Seq<(Seq<char>, T)>
    decreases s.len(),
{
    if s.len() == 0 {
        s
    } else {
        let r = by_key(s.drop_last());
        r.insert(key_pos(r, s.last().0, 0), s.last())
    }
}

/// A keyed list with its keys seen as text.
pub open spec fn key_views<T>(s: Seq<(String, T)>) -> Seq<(Seq<char>, T)> {
    s.map_values(|p: (String, T)| (p.0@, p.1))
}

/// Orders `v` by key, keeping the order of equal keys.
pub fn sort_by_key<T>(v: Vec<(String, T)>) -> (r: Vec<(String, T)>)
    ensures
        key_views(r@) == by_key(key_views(v@)),
{
    let ghost input = key_views(v@);
    let mut rest = v;
    let n: usize = rest.len();
    let mut out: Vec<(String, T)> = Vec::new();
    let mut k: usize = 0;
    while rest.len() > 0
        invariant
            key_views(rest@) == input.skip(k as int),
            k <= input.len(),
            input.len() == n,
            key_views(out@) == by_key(input.take(k as int)),
        decreases rest@.len(),
    {
        let ghost rest_before = rest@;
        let item = rest.remove(0);
        assert(key_views(rest_before)[0] == (item.0@, item.1));
        assert(key_views(rest_before).len() == rest_before.len());
        assert(k < input.len());
        assert(input[k as int] == input.skip(k as int)[0]);
        let ghost sorted = key_views(out@);
        let mut j: usize = 0;
        while j < out.len() && !name_lt(item.0.as_str(), out[j].0.as_str())
            invariant
                sorted == key_views(out@),
                j <= out@.len(),
                key_pos(sorted, item.0@, 0) == key_pos(sorted, item.0@, j as int),
            decreases out@.len() - j,
        {
            assert(sorted[j as int].0 == out@[j as int].0@);
            j += 1;
        }
        proof {
            if j < out@.len() {
                assert(sorted[j as int].0 == out@[j as int].0@);
            }
        }
        let ghost it = (item.0@, item.1);
        out.insert(j, item);
        proof {
            assert(input.take(k + 1).drop_last() =~= input.take(k as int));
            assert(input.take(k + 1).last() == it);
            assert(rest@ =~= rest_before.remove(0));
            assert(key_views(rest@) =~= key_views(rest_before).remove(0));
            assert(input.skip(k as int).remove(0) =~= input.skip(k + 1));
            assert(key_views(out@) =~= sorted.insert(j as int, it));
        }
        k += 1;
    }
    assert(input.take(k as int) =~= input);
    out
}

/// The items of a keyed list, keys dropped.
pub open spec fn items_of<K, T>(s: Seq<(K, T)>) -> Seq<T> {
    s.map_values(|p: (K, T)| p.1)
}

/// Drops the keys, keeping the items in order.
pub fn into_items<K, T>(v: Vec<(K, T)>) -> (r: Vec<T>)
    ensures
        r@ == items_of(v@),
{
    let ghost input = v@;
    let mut rest = v;
    let n: usize = rest.len();
    let mut out: Vec<T> = Vec::new();
    let mut k: usize = 0;
    while rest.len() > 0
        invariant
            rest@ == input.skip(k as int),
            k <= input.len(),
            input.len() == n,
            out@ == items_of(input.take(k as int)),
        decreases rest@.len(),
    {
        let (_, item) = rest.remove(0);
        out.push(item);
        proof {
            assert(input.skip(k as int).remove(0) =~= input.skip(k + 1));
            assert(items_of(input.take(k + 1)) =~= items_of(input.take(k as int)).push(item));
        }
        k += 1;
    }
    assert(input.take(k as int) =~= input);
    out
}

/// The items of `s` of size at least `min`, in order.
pub open spec fn at_least<T>(s: Seq<(u64, T)>, min: u64) -> Seq<(u64, T)>
    decreases s.len(),
{
    if s.len() == 0 {
        s
    } else {
        let r = at_least(s.drop_last(), min);
        if s.last().0 >= min {
            r.push(s.last())
        } else {
            r
        }
    }
}

/// A listing entry that has a size in bytes.
pub trait HasSize {
    spec fn size_spec(&self) -> u64;

    fn size(&self) -> (r: u64)
        ensures
            r == self.size_spec(),
    ;
}

/// Entries paired with their sizes.
pub open spec fn sized<T: HasSize>(s: Seq<T>) -> Seq<(u64, T)> {
    s.map_values(|x: T| (x.size_spec(), x))
}

/// At most the first `limit` of `s`.
pub open spec fn at_most<T>(s: Seq<T>, limit: nat) -> Seq<T> {
    if s.len() > limit {
        s.take(limit as int)
    } else {
        s
    }
}

/// The items of size at least `min`, largest first (equal sizes in their
/// input order), at most `limit` of them.
pub open spec fn ranked<T>(s: Seq<(u64, T)>, min: u64, limit: nat) -> Seq<T> {
    items_of(at_most(largest_first(at_least(s, min)), limit))
}

/// The entries of size at least `min`, largest first (equal sizes in their
/// input order), at most `limit` of them.
pub open spec fn ranked_by_size<T: HasSize>(s: Seq<T>, min: u64, limit: nat) -> Seq<T> {
    ranked(sized(s), min, limit)
}

/// Each item of a sized list seen through `f`, sizes kept.
pub open spec fn lift<T, U>(s: Seq<(u64, T)>, f: spec_fn(T) -> U) -> Seq<(u64, U)> {
    s.map_values(|p: (u64, T)| (p.0, f(p.1)))
}

proof fn lemma_size_pos_bounds<T>(s: Seq<(u64, T)>, x: u64, j: int)
    requires
        0 <= j <= s.len(),
    ensures
        j <= size_pos(s, x, j) <= s.len(),
    decreases s.len() - j,
{
    if j < s.len() && !(s[j].0 < x) {
        lemma_size_pos_bounds(s, x, j + 1);
    }
}

proof fn lemma_size_pos_lift<T, U>(s: Seq<(u64, T)>, f: spec_fn(T) -> U, x: u64, j: int)
    requires
        0 <= j <= s.len(),
    ensures
        size_pos(lift(s, f), x, j) == size_pos(s, x, j),
    decreases s.len() - j,
{
    if j < s.len() && !(s[j].0 < x) {
        lemma_size_pos_lift(s, f, x, j + 1);
    }
}

proof fn lemma_largest_first_len<T>(s: Seq<(u64, T)>)
    ensures
        largest_first(s).len() == s.len(),
    decreases s.len(),
{
    if s.len() > 0 {
        let r = largest_first(s.drop_last());
        lemma_largest_first_len(s.drop_last());
        lemma_size_pos_bounds(r, s.last().0, 0);
    }
}

proof fn lemma_largest_first_lift<T, U>(s: Seq<(u64, T)>, f: spec_fn(T) -> U)
    ensures
        largest_first(lift(s, f)) == lift(largest_first(s), f),
    decreases s.len(),
{
    if s.len() > 0 {
        let r = largest_first(s.drop_last());
        assert(lift(s, f).drop_last() =~= lift(s.drop_last(), f));
        lemma_largest_first_lift(s.drop_last(), f);
        lemma_largest_first_len(s.drop_last());
        lemma_size_pos_bounds(r, s.last().0, 0);
        lemma_size_pos_lift(r, f, s.last().0, 0);
        let p = size_pos(r, s.last().0, 0);
        assert(lift(r.insert(p, s.last()), f) =~= lift(r, f).insert(p, (s.last().0, f(s.last().1))));
    }
}

proof fn lemma_at_least_lift<T, U>(s: Seq<(u64, T)>, f: spec_fn(T) -> U, min: u64)
    ensures
        at_least(lift(s, f), min) == lift(at_least(s, min), f),
    decreases s.len(),
{
    if s.len() > 0 {
        assert(lift(s, f).drop_last() =~= lift(s.drop_last(), f));
        lemma_at_least_lift(s.drop_last(), f, min);
        let r = at_least(s.drop_last(), min);
        assert(lift(r.push(s.last()), f) =~= lift(r, f).push((s.last().0, f(s.last().1))));
    }
}

/// Ranking commutes with looking at the items through `f`: the order
/// depends on the sizes alone.
pub proof fn lemma_ranked_lift<T, U>(s: Seq<(u64, T)>, f: spec_fn(T) -> U, min: u64, limit: nat)
    ensures
        ranked(lift(s, f), min, limit) == ranked(s, min, limit).map_values(f),
{
    lemma_at_least_lift(s, f, min);
    lemma_largest_first_lift(at_least(s, min), f);
    let l = largest_first(at_least(s, min));
    assert(at_most(lift(l, f), limit) =~= lift(at_most(l, limit), f));
    assert(items_of(lift(at_most(l, limit), f)) =~= items_of(at_most(l, limit)).map_values(f));
}

/// Keeps the entries of size at least `min`, largest first, at most `limit`
/// of them.
pub fn rank_by_size<T: HasSize>(v: Vec<T>, min: u64, limit: usize) -> (r: Vec<T>)
    ensures
        r@ == ranked_by_size(v@, min, limit as nat),
{
    let ghost input = v@;
    let mut rest = v;
    let n: usize = rest.len();
    let mut kept: Vec<(u64, T)> = Vec::new();
    let mut k: usize = 0;
    while rest.len() > 0
        invariant
            rest@ == input.skip(k as int),
            k <= input.len(),
            input.len() == n,
            kept@ == at_least(sized(input.take(k as int)), min),
        decreases rest@.len(),
    {
        let x = rest.remove(0);
        let size = x.size();
        proof {
            assert(input.skip(k as int).remove(0) =~= input.skip(k + 1));
            assert(sized(input.take(k + 1)).drop_last() =~= sized(input.take(k as int)));
            assert(sized(input.take(k + 1)).last() == (size, x));
        }
        if size >= min {
            kept.push((size, x));
        }
        k += 1;
    }
    assert(input.take(k as int) =~= input);
    let mut sorted = sort_largest_first(kept);
    sorted.truncate(limit);
    into_items(sorted)
}

/// A listing entry shown under a name.
pub trait HasName {
    spec fn name_spec(&self) -> Seq<char>;

    fn name_of(&self) -> (r: String)
        ensures
            r@ == self.name_spec(),
    ;
}

/// Entries keyed by their names.
pub open spec fn named<T: HasName>(s: Seq<T>) -> Seq<(Seq<char>, T)> {
    s.map_values(|x: T| (x.name_spec(), x))
}

/// Orders entries by name (`str::cmp`), keeping the order of equal names.
pub fn sort_by_name<T: HasName>(v: Vec<T>) -> (r: Vec<T>)
    ensures
        r@ == items_of(by_key(named(v@))),
{
    let ghost input = v@;
    let mut rest = v;
    let n: usize = rest.len();
    let mut keyed: Vec<(String, T)> = Vec::new();
    let mut k: usize = 0;
    while rest.len() > 0
        invariant
            rest@ == input.skip(k as int),
            k <= input.len(),
            input.len() == n,
            key_views(keyed@) == named(input.take(k as int)),
        decreases rest@.len(),
    {
        let x = rest.remove(0);
        let key = x.name_of();
        let ghost before = keyed@;
        keyed.push((key, x));
        proof {
            assert(input.skip(k as int).remove(0) =~= input.skip(k + 1));
            assert(key_views(keyed@) =~= key_views(before).push((x.name_spec(), x)));
            assert(named(input.take(k + 1)) =~= named(input.take(k as int)).push((x.name_spec(), x)));
        }
        k += 1;
    }
    assert(input.take(k as int) =~= input);
    let sorted = sort_by_key(keyed);
    let r = into_items(sorted);
    assert(items_of(sorted@) =~= items_of(key_views(sorted@)));
    r
}

// ── What the orderings guarantee ───────────────────────────────────────────

/// `s` is ordered largest first.
pub open spec fn is_largest_first<T>(s: Seq<(u64, T)>) -> bool {
    forall|i: int, j: int| 0 <= i < j < s.len() ==> s[i].0 >= s[j].0
}

proof fn lemma_size_pos_facts<T>(s: Seq<(u64, T)>, x: u64, j: int)
    requires
        0 <= j <= s.len(),
    ensures
        j <= size_pos(s, x, j) <= s.len(),
        forall|k: int| j <= k < size_pos(s, x, j) ==> s[k].0 >= x,
        size_pos(s, x, j) < s.len() ==> s[size_pos(s, x, j)].0 < x,
    decreases s.len() - j,
{
    if j < s.len() && !(s[j].0 < x) {
        lemma_size_pos_facts(s, x, j + 1);
    }
}

/// Law: ordering by size puts larger items first and keeps exactly the
/// items given.
pub proof fn law_largest_first_orders<T>(s: Seq<(u64, T)>)
    ensures
        is_largest_first(largest_first(s)),
        largest_first(s).to_multiset() == s.to_multiset(),
    decreases s.len(),
{
    broadcast use vstd::seq_lib::group_to_multiset_ensures;

    if s.len() == 0 {
        assert(s.to_multiset() =~= vstd::multiset::Multiset::empty());
        assert(largest_first(s).to_multiset() =~= vstd::multiset::Multiset::empty());
    } else {
        let r = largest_first(s.drop_last());
        law_largest_first_orders(s.drop_last());
        let x = s.last();
        lemma_size_pos_facts(r, x.0, 0);
        let p = size_pos(r, x.0, 0);
        let t = r.insert(p, x);
        assert forall|i: int, j: int| 0 <= i < j < t.len() implies t[i].0 >= t[j].0 by {
            if j < p {
                assert(t[i] == r[i] && t[j] == r[j]);
            } else if j == p {
                assert(t[i] == r[i]);
            } else if i < p {
                assert(t[i] == r[i] && t[j] == r[j - 1]);
                if p < r.len() {
                    assert(r[p].0 < x.0);
                }
            } else if i == p {
                assert(t[j] == r[j - 1]);
                assert(r[j - 1].0 <= r[p].0 || j - 1 == p);
            } else {
                assert(t[i] == r[i - 1] && t[j] == r[j - 1]);
            }
        }
        vstd::seq_lib::to_multiset_insert(r, p, x);
        vstd::seq_lib::to_multiset_build(s.drop_last(), x);
        assert(s.drop_last().push(x) =~= s);
    }
}

/// `s` is ordered by key: no key is smaller than one before it.
pub open spec fn is_by_key<T>(s: Seq<(Seq<char>, T)>) -> bool {
    forall|i: int, j: int| 0 <= i < j < s.len() ==> !chars_lt(s[j].0, s[i].0)
}

proof fn lemma_key_pos_facts<T>(s: Seq<(Seq<char>, T)>, key: Seq<char>, j: int)
    requires
        0 <= j <= s.len(),
    ensures
        j <= key_pos(s, key, j) <= s.len(),
        forall|k: int| j <= k < key_pos(s, key, j) ==> !chars_lt(key, s[k].0),
        key_pos(s, key, j) < s.len() ==> chars_lt(key, s[key_pos(s, key, j)].0),
    decreases s.len() - j,
{
    if j < s.len() && !chars_lt(key, s[j].0) {
        lemma_key_pos_facts(s, key, j + 1);
    }
}

/// Law: ordering by key leaves no key before a smaller one and keeps
/// exactly the items given.
pub proof fn law_by_key_orders<T>(s: Seq<(Seq<char>, T)>)
    ensures
        is_by_key(by_key(s)),
        by_key(s).to_multiset() == s.to_multiset(),
    decreases s.len(),
{
    broadcast use vstd::seq_lib::group_to_multiset_ensures;

    if s.len() == 0 {
        assert(s.to_multiset() =~= vstd::multiset::Multiset::empty());
        assert(by_key(s).to_multiset() =~= vstd::multiset::Multiset::empty());
    } else {
        let r = by_key(s.drop_last());
        law_by_key_orders(s.drop_last());
        let x = s.last();
        lemma_key_pos_facts(r, x.0, 0);
        let p = key_pos(r, x.0, 0);
        let t = r.insert(p, x);
        assert forall|i: int, j: int| 0 <= i < j < t.len() implies !chars_lt(t[j].0, t[i].0) by {
            if j < p {
                assert(t[i] == r[i] && t[j] == r[j]);
            } else if j == p {
                assert(t[i] == r[i]);
                crate::paths::lemma_chars_lt_strict(x.0, r[i].0);
            } else if i < p {
                assert(t[i] == r[i] && t[j] == r[j - 1]);
            } else if i == p {
                assert(t[j] == r[j - 1]);
                // x < r[p] <= r[j - 1]
                assert(chars_lt(x.0, r[p].0));
                crate::paths::lemma_chars_lt_strict(r[j - 1].0, r[p].0);
                crate::paths::lemma_chars_lt_strict(r[j - 1].0, x.0);
                if chars_lt(r[j - 1].0, x.0) {
                    if j - 1 > p {
                        assert(!chars_lt(r[j - 1].0, r[p].0));
                        if r[j - 1].0 != r[p].0 {
                            crate::paths::lemma_chars_lt_trans(r[j - 1].0, x.0, r[p].0);
                        }
                    }
                }
            } else {
                assert(t[i] == r[i - 1] && t[j] == r[j - 1]);
            }
        }
        vstd::seq_lib::to_multiset_insert(r, p, x);
        vstd::seq_lib::to_multiset_build(s.drop_last(), x);
        assert(s.drop_last().push(x) =~= s);
    }
}

proof fn lemma_at_least_facts<T>(s: Seq<(u64, T)>, min: u64)
    ensures
        forall|k: int| 0 <= k < at_least(s, min).len() ==> #[trigger] at_least(s, min)[k].0 >= min
            && s.contains(at_least(s, min)[k]),
    decreases s.len(),
{
    if s.len() > 0 {
        lemma_at_least_facts(s.drop_last(), min);
        let r = at_least(s.drop_last(), min);
        assert forall|k: int| 0 <= k < at_least(s, min).len() implies #[trigger] at_least(s, min)[k].0 >= min
            && s.contains(at_least(s, min)[k]) by {
            if k < r.len() {
                assert(at_least(s, min)[k] == r[k]);
                let w = choose|w: int| 0 <= w < s.drop_last().len() && s.drop_last()[w] == r[k];
                assert(s[w] == r[k]);
            } else {
                assert(s[s.len() - 1] == s.last());
            }
        }
    }
}

/// Law: a ranked listing holds at most `limit` entries, each of size at
/// least `min`, each one of the entries given, ordered largest first.
pub proof fn law_ranked_listing<T: HasSize>(s: Seq<T>, min: u64, limit: nat)
    ensures
        ranked_by_size(s, min, limit).len() <= limit,
        forall|i: int| 0 <= i < ranked_by_size(s, min, limit).len() ==> (#[trigger] ranked_by_size(s, min, limit)[i]).size_spec()
            >= min && s.contains(ranked_by_size(s, min, limit)[i]),
        forall|i: int, j: int|
            0 <= i < j < ranked_by_size(s, min, limit).len() ==> (#[trigger] ranked_by_size(s, min, limit)[i]).size_spec()
                >= (#[trigger] ranked_by_size(s, min, limit)[j]).size_spec(),
{
    broadcast use vstd::seq_lib::group_to_multiset_ensures;

    let a = at_least(sized(s), min);
    let l = largest_first(a);
    let m = at_most(l, limit);
    let r = ranked_by_size(s, min, limit);
    lemma_at_least_facts(sized(s), min);
    law_largest_first_orders(a);
    lemma_largest_first_len(a);
    assert(r == items_of(m));
    // Every entry of the sorted list is an entry of the filtered one.
    assert forall|k: int| 0 <= k < l.len() implies #[trigger] a.contains(l[k]) by {
        assert(l.to_multiset().count(l[k]) > 0);
    }
    assert forall|k: int| 0 <= k < l.len() implies (#[trigger] l[k]).0 >= min && l[k].0 == l[k].1.size_spec()
        && s.contains(l[k].1) by {
        assert(a.contains(l[k]));
        let w = choose|w: int| 0 <= w < a.len() && a[w] == l[k];
        assert(a[w].0 >= min && sized(s).contains(a[w]));
        let v = choose|v: int| 0 <= v < sized(s).len() && sized(s)[v] == a[w];
        assert(sized(s)[v] == (s[v].size_spec(), s[v]));
    }
    assert forall|i: int| 0 <= i < r.len() implies (#[trigger] r[i]).size_spec() >= min && s.contains(r[i]) by {
        assert(r[i] == m[i].1);
        assert(m[i] == l[i]);
    }
    assert forall|i: int, j: int| 0 <= i < j < r.len() implies (#[trigger] r[i]).size_spec() >= (#[trigger] r[j]).size_spec() by {
        assert(r[i] == l[i].1 && r[j] == l[j].1);
        assert(l[i].0 >= l[j].0);
    }
}

} // verus!
