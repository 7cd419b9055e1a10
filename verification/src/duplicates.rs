//! Duplicate files: the cheap fingerprint of a file's first bytes that
//! narrows the candidates, and the groups reported, largest waste first.
use vstd::prelude::*;
use crate::brew::name_lt;
use crate::paths::chars_lt;
use crate::system::{decimal_text, push_decimal};
use crate::text::{push_char, push_str, split_on, split_char, first_index, chars_of, string_of_range, str_eq};

verus! {

/// Files sharing a content hash.
pub struct DuplicateGroup {
    pub hash: String,
    pub size_bytes: u64,
    pub paths: Vec<String>,
    pub wasted_bytes: u64,
}

pub open spec fn fnv_offset() -> u64 {
    14695981039346656037
}

pub open spec fn fnv_prime() -> u64 {
    1099511628211
}

/// The 64-bit FNV-1a hash of `data` (products taken modulo 2^64).
pub open spec fn fnv1a(data: Seq<u8>) -> u64
    decreases data.len(),
{
    if data.len() == 0 {
        fnv_offset()
    } else {
        (((fnv1a(data.drop_last()) ^ (data.last() as u64)) as nat * fnv_prime() as nat)
            % 0x1_0000_0000_0000_0000) as u64
    }
}

/// The 64-bit FNV-1a hash of some bytes (the fingerprint of a file's first
/// 64 KiB).
pub fn fnv1a_64(data: &[u8]) -> (h: u64)
    ensures
        h == fnv1a(data@),
{
    let mut h: u64 = 14695981039346656037;
    let mut i: usize = 0;
    while i < data.len()
        invariant
            i <= data@.len(),
            h == fnv1a(data@.take(i as int)),
        decreases data@.len() - i,
    {
        assert(data@.take(i + 1).drop_last() =~= data@.take(i as int));
        h = (h ^ (data[i] as u64)).wrapping_mul(1099511628211);
        i += 1;
    }
    assert(data@.take(data@.len() as int) =~= data@);
    h
}

/// The key grouping files by size and fingerprint: `size:fingerprint`.
pub fn partial_key(size: u64, fingerprint: u64) -> (r: String)
    ensures
        r@ == decimal_text(size as nat) + seq![':'] + decimal_text(fingerprint as nat),
{
    let mut r = String::new();
    push_decimal(&mut r, size);
    push_char(&mut r, ':');
    push_decimal(&mut r, fingerprint);
    r
}

/// Where `x` goes among the sorted paths `s`: after every path not larger.
pub open spec fn path_pos(s: Seq<Seq<char>>, x: Seq<char>, j: int) -> int
    decreases s.len() - j,
{
    if j < 0 || j >= s.len() {
        s.len() as int
    } else if chars_lt(x, s[j]) {
        j
    } else {
        path_pos(s, x, j + 1)
    }
}

/// `s` in string order.
pub open spec fn sorted_strings(s: Seq<Seq<char>>) -> Seq<Seq<char>>
    decreases s.len(),
{
    if s.len() == 0 {
        s
    } else {
        let r = sorted_strings(s.drop_last());
        r.insert(path_pos(r, s.last(), 0), s.last())
    }
}

proof fn lemma_path_pos_facts(s: Seq<Seq<char>>, x: Seq<char>, j: int)
    requires
        0 <= j <= s.len(),
    ensures
        j <= path_pos(s, x, j) <= s.len(),
        forall|k: int| j <= k < path_pos(s, x, j) ==> !chars_lt(x, s[k]),
        path_pos(s, x, j) < s.len() ==> chars_lt(x, s[path_pos(s, x, j)]),
    decreases s.len() - j,
{
    if j < s.len() && !chars_lt(x, s[j]) {
        lemma_path_pos_facts(s, x, j + 1);
    }
}

/// Law: sorting strings leaves none before a smaller one and keeps exactly the strings given.
pub proof fn law_sorted_strings_orders(s: Seq<Seq<char>>)
    ensures
        forall|i: int, j: int|
            0 <= i < j < sorted_strings(s).len() ==> !chars_lt(sorted_strings(s)[j], sorted_strings(s)[i]),
        sorted_strings(s).to_multiset() == s.to_multiset(),
    decreases s.len(),
{
    broadcast use vstd::seq_lib::group_to_multiset_ensures;

    if s.len() == 0 {
        assert(s.to_multiset() =~= vstd::multiset::Multiset::empty());
        assert(sorted_strings(s).to_multiset() =~= vstd::multiset::Multiset::empty());
    } else {
        let r = sorted_strings(s.drop_last());
        law_sorted_strings_orders(s.drop_last());
        let x = s.last();
        lemma_path_pos_facts(r, x, 0);
        let p = path_pos(r, x, 0);
        let t = r.insert(p, x);
        assert forall|i: int, j: int| 0 <= i < j < t.len() implies !chars_lt(t[j], t[i]) by {
            if j < p {
                assert(t[i] == r[i] && t[j] == r[j]);
            } else if j == p {
                assert(t[i] == r[i]);
                crate::paths::lemma_chars_lt_strict(x, r[i]);
            } else if i < p {
                assert(t[i] == r[i] && t[j] == r[j - 1]);
            } else if i == p {
                assert(t[j] == r[j - 1]);
                assert(chars_lt(x, r[p]));
                crate::paths::lemma_chars_lt_strict(r[j - 1], r[p]);
                crate::paths::lemma_chars_lt_strict(r[j - 1], x);
                if chars_lt(r[j - 1], x) {
                    if j - 1 > p {
                        assert(!chars_lt(r[j - 1], r[p]));
                        if r[j - 1] != r[p] {
                            crate::paths::lemma_chars_lt_trans(r[j - 1], x, r[p]);
                        }
                    }
                }
            } else {
                assert(t[i] == r[i - 1] && t[j] == r[j - 1]);
            }
        }
        vstd::seq_lib::to_multiset_insert(r, p, x);
        vstd::seq_lib::to_multiset_build(s.drop_last(), x);
        assert(s.drop_last().push(x) =~= s);
    }
}

/// Sorts strings.
pub fn sort_strings(v: Vec<String>) -> (r: Vec<String>)
    ensures
        r.deep_view() == sorted_strings(v.deep_view()),
{
    let ghost input = v.deep_view();
    let total = v.len();
    let mut out: Vec<String> = Vec::new();
    let mut k: usize = 0;
    while k < v.len()
        invariant
            input == v.deep_view(),
            total == v@.len(),
            k <= total,
            out.deep_view() == sorted_strings(input.take(k as int)),
        decreases total - k,
    {
        let x = &v[k];
        assert(x@ == input[k as int]);
        let ghost sorted = out.deep_view();
        let mut j: usize = 0;
        while j < out.len() && !name_lt(x.as_str(), out[j].as_str())
            invariant
                sorted == out.deep_view(),
                j <= out@.len(),
                path_pos(sorted, x@, 0) == path_pos(sorted, x@, j as int),
            decreases out@.len() - j,
        {
            assert(sorted[j as int] == out@[j as int]@);
            j += 1;
        }
        proof {
            if j < out@.len() {
                assert(sorted[j as int] == out@[j as int]@);
            }
        }
        out.insert(j, x.clone());
        proof {
            assert(input.take(k + 1).drop_last() =~= input.take(k as int));
            assert(input.take(k + 1).last() == x@);
            assert(out.deep_view() =~= sorted.insert(j as int, x@));
        }
        k += 1;
    }
    assert(input.take(total as int) =~= input);
    out
}

/// The hash part of a group key `size:hash`: after the first `:`, or empty.
pub open spec fn key_hash(key: Seq<char>) -> Seq<char> {
    let k = first_index(key, |c: char| c == ':');
    if k < key.len() {
        key.skip(k + 1)
    } else {
        seq![]
    }
}

/// A group of identical files: its paths in order, and the space all but
/// one of them waste (saturating).
pub fn duplicate_group(key: &str, size_bytes: u64, paths: Vec<String>) -> (g: DuplicateGroup)
    requires
        paths@.len() >= 1,
    ensures
        g.hash@ == key_hash(key@),
        g.size_bytes == size_bytes,
        g.paths.deep_view() == sorted_strings(paths.deep_view()),
        g.wasted_bytes == if size_bytes * (paths@.len() - 1) > u64::MAX {
            u64::MAX
        } else {
            (size_bytes * (paths@.len() - 1)) as u64
        },
{
    let v = chars_of(key);
    let mut k: usize = 0;
    while k < v.len() && v[k] != ':'
        invariant
            k <= v@.len(),
            forall|j: int| 0 <= j < k ==> v@[j] != ':',
        decreases v@.len() - k,
    {
        k += 1;
    }
    proof {
        crate::text::lemma_first_index(v@, |c: char| c == ':', k as int);
    }
    let hash = if k < v.len() {
        let h = string_of_range(&v, k + 1, v.len());
        assert(h@ =~= key@.skip(k + 1));
        h
    } else {
        String::new()
    };
    let n = paths.len() as u64 - 1;
    let wasted = if n > 0 && size_bytes > u64::MAX / n {
        proof {
            assert(size_bytes * n > u64::MAX) by (nonlinear_arith)
                requires
                    n > 0,
                    size_bytes > u64::MAX / n,
            ;
        }
        u64::MAX
    } else {
        proof {
            assert(size_bytes * n <= u64::MAX) by (nonlinear_arith)
                requires
                    n == 0 || size_bytes <= u64::MAX / n,
            ;
        }
        size_bytes * n
    };
    let sorted = sort_strings(paths);
    DuplicateGroup { hash, size_bytes, paths: sorted, wasted_bytes: wasted }
}

/// At most this many groups are reported.
pub const MAX_DUPLICATE_GROUPS: usize = 500;

/// What a group shows: `(hash, size, paths, wasted bytes)`.
pub type GroupView = (Seq<char>, u64, Seq<Seq<char>>, u64);

pub open spec fn group_view(g: DuplicateGroup) -> GroupView {
    (g.hash@, g.size_bytes, g.paths.deep_view(), g.wasted_bytes)
}

/// Where a group wasting `w` goes among `s`: after every group wasting as
/// much or more.
pub open spec fn waste_pos(s: Seq<GroupView>, w: u64, j: int) -> int
    decreases s.len() - j,
{
    if j < 0 || j >= s.len() {
        s.len() as int
    } else if s[j].3 < w {
        j
    } else {
        waste_pos(s, w, j + 1)
    }
}

/// `s` by wasted space, largest first, ties kept in order.
pub open spec fn largest_waste_first(s: Seq<GroupView>) -> Seq<GroupView>
    decreases s.len(),
{
    if s.len() == 0 {
        s
    } else {
        let r = largest_waste_first(s.drop_last());
        r.insert(waste_pos(r, s.last().3, 0), s.last())
    }
}

proof fn lemma_waste_pos_facts(s: Seq<GroupView>, w: u64, j: int)
    requires
        0 <= j <= s.len(),
    ensures
        j <= waste_pos(s, w, j) <= s.len(),
        forall|k: int| j <= k < waste_pos(s, w, j) ==> s[k].3 >= w,
        waste_pos(s, w, j) < s.len() ==> s[waste_pos(s, w, j)].3 < w,
    decreases s.len() - j,
{
    if j < s.len() && !(s[j].3 < w) {
        lemma_waste_pos_facts(s, w, j + 1);
    }
}

/// Law: ranking by waste puts no group after one that wastes less, and keeps
/// exactly the groups given.
pub proof fn law_largest_waste_first(s: Seq<GroupView>)
    ensures
        forall|i: int, j: int|
            0 <= i < j < largest_waste_first(s).len() ==> largest_waste_first(s)[i].3 >= largest_waste_first(s)[j].3,
        largest_waste_first(s).to_multiset() == s.to_multiset(),
    decreases s.len(),
{
    broadcast use vstd::seq_lib::group_to_multiset_ensures;

    if s.len() == 0 {
        assert(s.to_multiset() =~= vstd::multiset::Multiset::empty());
        assert(largest_waste_first(s).to_multiset() =~= vstd::multiset::Multiset::empty());
    } else {
        let r = largest_waste_first(s.drop_last());
        law_largest_waste_first(s.drop_last());
        let x = s.last();
        lemma_waste_pos_facts(r, x.3, 0);
        let p = waste_pos(r, x.3, 0);
        let t = r.insert(p, x);
        assert forall|i: int, j: int| 0 <= i < j < t.len() implies t[i].3 >= t[j].3 by {
            if j < p {
                assert(t[i] == r[i] && t[j] == r[j]);
            } else if j == p {
                assert(t[i] == r[i]);
            } else if i < p {
                assert(t[i] == r[i] && t[j] == r[j - 1]);
                if p < r.len() {
                    assert(r[p].3 < x.3);
                }
            } else if i == p {
                assert(t[j] == r[j - 1]);
                assert(r[j - 1].3 <= r[p].3 || j - 1 == p);
            } else {
                assert(t[i] == r[i - 1] && t[j] == r[j - 1]);
            }
        }
        vstd::seq_lib::to_multiset_insert(r, p, x);
        vstd::seq_lib::to_multiset_build(s.drop_last(), x);
        assert(s.drop_last().push(x) =~= s);
    }
}

/// A leading run of a sequence holds no element more often than the whole.
proof fn lemma_take_sub_multiset<A>(s: Seq<A>, n: int)
    requires
        0 <= n <= s.len(),
    ensures
        s.take(n).to_multiset().subset_of(s.to_multiset()),
{
    broadcast use vstd::multiset::group_multiset_axioms;

    vstd::seq_lib::lemma_multiset_commutative(s.take(n), s.skip(n));
    assert(s.take(n) + s.skip(n) =~= s);
}

/// The groups reported: largest waste first, at most 500.
pub fn rank_duplicate_groups(groups: Vec<DuplicateGroup>) -> (r: Vec<DuplicateGroup>)
    ensures
        r@.map_values(|g: DuplicateGroup| group_view(g)) == {
            let all = largest_waste_first(groups@.map_values(|g: DuplicateGroup| group_view(g)));
            if all.len() > MAX_DUPLICATE_GROUPS {
                all.take(MAX_DUPLICATE_GROUPS as int)
            } else {
                all
            }
        },
        r@.len() == if groups@.len() > MAX_DUPLICATE_GROUPS {
            MAX_DUPLICATE_GROUPS as int
        } else {
            groups@.len() as int
        },
        forall|i: int, j: int| 0 <= i < j < r@.len() ==> r@[i].wasted_bytes >= r@[j].wasted_bytes,
        r@.map_values(|g: DuplicateGroup| group_view(g)).to_multiset().subset_of(
            groups@.map_values(|g: DuplicateGroup| group_view(g)).to_multiset(),
        ),
        groups@.len() <= MAX_DUPLICATE_GROUPS ==> r@.map_values(|g: DuplicateGroup| group_view(g)).to_multiset()
            == groups@.map_values(|g: DuplicateGroup| group_view(g)).to_multiset(),
{
    let ghost input = groups@.map_values(|g: DuplicateGroup| group_view(g));
    let mut rest = groups;
    let total = rest.len();
    let mut taken: Vec<DuplicateGroup> = Vec::new();
    while rest.len() > 0
        invariant
            input.len() == rest@.len() + taken@.len(),
            forall|k: int| 0 <= k < rest@.len() ==> #[trigger] group_view(rest@[k]) == input[k],
            forall|k: int|
                0 <= k < taken@.len() ==> #[trigger] group_view(taken@[k]) == input[input.len() - 1 - k],
        decreases rest@.len(),
    {
        let g = rest.pop().unwrap();
        taken.push(g);
    }
    let mut out: Vec<DuplicateGroup> = Vec::new();
    let mut k: usize = 0;
    while taken.len() > 0
        invariant
            input.len() == total,
            input.len() == taken@.len() + k,
            forall|j: int|
                0 <= j < taken@.len() ==> #[trigger] group_view(taken@[j]) == input[input.len() - 1 - j],
            out@.map_values(|g: DuplicateGroup| group_view(g)) == largest_waste_first(input.take(k as int)),
        decreases taken@.len(),
    {
        let g = taken.pop().unwrap();
        assert(group_view(g) == input[k as int]);
        let ghost sorted = out@.map_values(|g: DuplicateGroup| group_view(g));
        let mut j: usize = 0;
        while j < out.len() && out[j].wasted_bytes >= g.wasted_bytes
            invariant
                sorted == out@.map_values(|g: DuplicateGroup| group_view(g)),
                j <= out@.len(),
                waste_pos(sorted, g.wasted_bytes, 0) == waste_pos(sorted, g.wasted_bytes, j as int),
            decreases out@.len() - j,
        {
            assert(sorted[j as int].3 == out@[j as int].wasted_bytes);
            j += 1;
        }
        proof {
            if j < out@.len() {
                assert(sorted[j as int].3 == out@[j as int].wasted_bytes);
            }
        }
        let ghost gv = group_view(g);
        out.insert(j, g);
        proof {
            assert(input.take(k + 1).drop_last() =~= input.take(k as int));
            assert(input.take(k + 1).last() == gv);
            assert(out@.map_values(|g: DuplicateGroup| group_view(g)) =~= sorted.insert(j as int, gv));
        }
        k += 1;
    }
    assert(input.take(k as int) =~= input);
    let ghost all = out@.map_values(|g: DuplicateGroup| group_view(g));
    out.truncate(MAX_DUPLICATE_GROUPS);
    assert(out@.map_values(|g: DuplicateGroup| group_view(g)) =~= if all.len() > MAX_DUPLICATE_GROUPS {
        all.take(MAX_DUPLICATE_GROUPS as int)
    } else {
        all
    });
    proof {
        broadcast use vstd::seq_lib::group_to_multiset_ensures;

        law_largest_waste_first(input);
        vstd::seq_lib::to_multiset_len(all);
        vstd::seq_lib::to_multiset_len(input);
        assert(all.len() == input.len());
        let rv = out@.map_values(|g: DuplicateGroup| group_view(g));
        assert forall|i: int, j: int| 0 <= i < j < out@.len() implies out@[i].wasted_bytes >= out@[j].wasted_bytes by {
            assert(rv[i] == all[i] && rv[j] == all[j]);
        }
        if all.len() > MAX_DUPLICATE_GROUPS {
            lemma_take_sub_multiset(all, MAX_DUPLICATE_GROUPS as int);
        } else {
            assert(rv =~= all);
        }
    }
    out
}

// ── Finding candidates ──────────────────────────────────────────────────────

/// Files smaller than this are not compared.
pub const MIN_DUPLICATE_BYTES: u64 = 4096;

/// What to do with an entry met while walking the searched folders.
pub enum WalkStep {
    /// Leave it alone.
    Skip,
    /// Walk into this folder.
    Descend,
    /// Compare this file, of this size.
    Compare(u64),
}

/// Folders never walked into.
pub open spec fn unwalked_folder(name: Seq<char>) -> bool {
    name == ".git"@ || name == "node_modules"@ || name == "target"@ || name == ".build"@ || name
        == ".Trash"@ || name == "Library"@ || name == "Applications"@
}

/// What to do with an entry named `name`: links are skipped, folders walked
/// unless they are build output, system or trash folders, and files of at
/// least `MIN_DUPLICATE_BYTES` (when their size could be read) compared.
pub fn walk_step(name: &str, is_symlink: bool, is_dir: bool, is_file: bool, size: Option<u64>) -> (r: WalkStep)
    ensures
        is_symlink ==> r is Skip,
        !is_symlink && is_dir ==> if unwalked_folder(name@) {
            r is Skip
        } else {
            r is Descend
        },
        !is_symlink && !is_dir && is_file ==> match size {
            Some(n) => if n >= MIN_DUPLICATE_BYTES {
                r matches WalkStep::Compare(m) && m == n
            } else {
                r is Skip
            },
            None => r is Skip,
        },
        !is_symlink && !is_dir && !is_file ==> r is Skip,
{
    if is_symlink {
        return WalkStep::Skip;
    }
    if is_dir {
        if str_eq(name, ".git") || str_eq(name, "node_modules") || str_eq(name, "target") || str_eq(
            name,
            ".build",
        ) || str_eq(name, ".Trash") || str_eq(name, "Library") || str_eq(name, "Applications") {
            return WalkStep::Skip;
        }
        return WalkStep::Descend;
    }
    if !is_file {
        return WalkStep::Skip;
    }
    match size {
        Some(n) => if n >= MIN_DUPLICATE_BYTES {
            WalkStep::Compare(n)
        } else {
            WalkStep::Skip
        },
        None => WalkStep::Skip,
    }
}

/// The folders searched when none is given, under home.
pub open spec fn default_duplicate_folders() -> Seq<Seq<char>> {
    seq![
        "Documents"@, "Downloads"@, "Desktop"@, "Movies"@, "Music"@, "Pictures"@, "Developer"@,
        "Code"@, "Projects"@,
    ]
}

/// The folders searched when none is given.
pub fn duplicate_search_folders(home: &str) -> (r: Vec<String>)
    ensures
        r@.len() == default_duplicate_folders().len(),
        forall|i: int| 0 <= i < r@.len() ==> #[trigger] r@[i]@ == crate::guard::path_push(
            home@,
            default_duplicate_folders()[i],
        ),
{
    let names: Vec<&str> = vec![
        "Documents", "Downloads", "Desktop", "Movies", "Music", "Pictures", "Developer", "Code",
        "Projects",
    ];
    let ghost table = default_duplicate_folders();
    assert(names@.map_values(|s: &str| s@) =~= table);
    let mut out: Vec<String> = Vec::new();
    let mut i: usize = 0;
    while i < names.len()
        invariant
            names@.map_values(|s: &str| s@) == table,
            table == default_duplicate_folders(),
            i <= names@.len(),
            out@.len() == i,
            forall|j: int| 0 <= j < out@.len() ==> #[trigger] out@[j]@ == crate::guard::path_push(home@, table[j]),
        decreases names@.len() - i,
    {
        assert(names@.map_values(|s: &str| s@)[i as int] == names@[i as int]@);
        out.push(crate::guard::path_join(home, names[i]));
        i += 1;
    }
    out
}

/// Where the group of `key` is among `g`, if there is one.
pub open spec fn group_index<K, V>(g: Seq<(K, Seq<V>)>, key: K, j: int) -> Option<int>
    decreases g.len() - j,
{
    if j < 0 || j >= g.len() {
        None
    } else if g[j].0 == key {
        Some(j)
    } else {
        group_index(g, key, j + 1)
    }
}

/// The groups of the items `s` by key: each key once, in the order keys
/// first appear, with its items in order.
pub open spec fn groups_of<K, V>(s: Seq<(K, V)>) -> Seq<(K, Seq<V>)>
    decreases s.len(),
{
    if s.len() == 0 {
        seq![]
    } else {
        let g = groups_of(s.drop_last());
        let (k, v) = s.last();
        match group_index(g, k, 0) {
            Some(i) => g.update(i, (k, g[i].1.push(v))),
            None => g.push((k, seq![v])),
        }
    }
}

/// Groups seen with their items as sequences.
pub open spec fn group_views<K, V>(g: Seq<(K, Vec<V>)>) -> Seq<(K, Seq<V>)> {
    g.map_values(|p: (K, Vec<V>)| (p.0, p.1@))
}

proof fn lemma_group_index<K, V>(g: Seq<(K, Seq<V>)>, key: K, j: int)
    requires
        0 <= j <= g.len(),
    ensures
        match group_index(g, key, j) {
            Some(i) => j <= i < g.len() && g[i].0 == key,
            None => forall|k: int| j <= k < g.len() ==> g[k].0 != key,
        },
    decreases g.len() - j,
{
    if j < g.len() && g[j].0 != key {
        lemma_group_index(g, key, j + 1);
    }
}

/// The items of `s` under `key`, in order.
pub open spec fn values_for<K, V>(s: Seq<(K, V)>, key: K) -> Seq<V>
    decreases s.len(),
{
    if s.len() == 0 {
        seq![]
    } else if s.last().0 == key {
        values_for(s.drop_last(), key).push(s.last().1)
    } else {
        values_for(s.drop_last(), key)
    }
}

/// Law: grouping gives each key at most one group; a group holds, in order,
/// exactly the items under its key, at least one; and a key without a group
/// has no item.
pub proof fn law_groups_exact<K, V>(s: Seq<(K, V)>)
    ensures
        forall|i: int, j: int|
            0 <= i < j < groups_of(s).len() ==> #[trigger] groups_of(s)[i].0 != #[trigger] groups_of(s)[j].0,
        forall|i: int|
            0 <= i < groups_of(s).len() ==> #[trigger] groups_of(s)[i].1 == values_for(s, groups_of(s)[i].0)
                && groups_of(s)[i].1.len() > 0,
        forall|key: K|
            (forall|i: int| 0 <= i < groups_of(s).len() ==> #[trigger] groups_of(s)[i].0 != key) ==> #[trigger] values_for(
                s,
                key,
            ) == Seq::<V>::empty(),
    decreases s.len(),
{
    if s.len() > 0 {
        let init = s.drop_last();
        law_groups_exact(init);
        let g0 = groups_of(init);
        let g = groups_of(s);
        let (k, v) = s.last();
        lemma_group_index(g0, k, 0);
        assert forall|key: K| key != k implies #[trigger] values_for(s, key) == values_for(init, key) by {}
        assert(values_for(s, k) == values_for(init, k).push(v));
        match group_index(g0, k, 0) {
            Some(i) => {
                assert(g == g0.update(i, (k, g0[i].1.push(v))));
                assert forall|a: int| 0 <= a < g.len() implies #[trigger] g[a].1 == values_for(s, g[a].0)
                    && g[a].1.len() > 0 by {
                    if a != i {
                        assert(g[a] == g0[a]);
                        assert(g0[a].0 != k);
                    }
                }
                assert forall|key: K| (forall|a: int| 0 <= a < g.len() ==> #[trigger] g[a].0 != key) implies #[trigger] values_for(
                    s,
                    key,
                ) == Seq::<V>::empty() by {
                    assert(g[i].0 == k);
                    assert forall|a: int| 0 <= a < g0.len() implies #[trigger] g0[a].0 != key by {
                        assert(g[a].0 == g0[a].0);
                    }
                }
            },
            None => {
                assert(g == g0.push((k, seq![v])));
                assert(values_for(init, k) == Seq::<V>::empty());
                assert(values_for(s, k) =~= seq![v]);
                assert forall|a: int| 0 <= a < g.len() implies #[trigger] g[a].1 == values_for(s, g[a].0)
                    && g[a].1.len() > 0 by {
                    if a < g0.len() {
                        assert(g[a] == g0[a]);
                        assert(g0[a].0 != k);
                    }
                }
                assert forall|key: K| (forall|a: int| 0 <= a < g.len() ==> #[trigger] g[a].0 != key) implies #[trigger] values_for(
                    s,
                    key,
                ) == Seq::<V>::empty() by {
                    assert(g[g0.len() as int].0 == k);
                    assert forall|a: int| 0 <= a < g0.len() implies #[trigger] g0[a].0 != key by {
                        assert(g[a].0 == g0[a].0);
                    }
                }
            },
        }
    }
}

/// Groups files by size.
pub fn group_by_size<V>(items: Vec<(u64, V)>) -> (r: Vec<(u64, Vec<V>)>)
    ensures
        group_views(r@) == groups_of(items@),
{
    let ghost input = items@;
    let mut rest = items;
    let n: usize = rest.len();
    let mut out: Vec<(u64, Vec<V>)> = Vec::new();
    let mut k: usize = 0;
    while rest.len() > 0
        invariant
            rest@ == input.skip(k as int),
            k <= input.len(),
            input.len() == n,
            group_views(out@) == groups_of(input.take(k as int)),
        decreases rest@.len(),
    {
        let (key, v) = rest.remove(0);
        proof {
            assert(input.skip(k as int).remove(0) =~= input.skip(k + 1));
            assert(input.take(k + 1).drop_last() =~= input.take(k as int));
        }
        let ghost g = group_views(out@);
        proof {
            lemma_group_index(g, key, 0);
        }
        let mut j: usize = 0;
        while j < out.len() && out[j].0 != key
            invariant
                g == group_views(out@),
                j <= out@.len(),
                group_index(g, key, 0) == group_index(g, key, j as int),
            decreases out@.len() - j,
        {
            j += 1;
        }
        if j < out.len() {
            let mut slot: (u64, Vec<V>) = (0, Vec::new());
            let ghost before = out@;
            std::mem::swap(&mut slot, &mut out[j]);
            let ghost v_ghost = v;
            slot.1.push(v);
            let ghost pushed = slot.1@;
            out.set(j, slot);
            assert(group_views(out@) =~= g.update(j as int, (key, g[j as int].1.push(v_ghost))));
        } else {
            let mut vs: Vec<V> = Vec::new();
            let ghost v_ghost = v;
            vs.push(v);
            out.push((key, vs));
            assert(group_views(out@) =~= g.push((key, seq![v_ghost])));
        }
        k += 1;
    }
    assert(input.take(k as int) =~= input);
    out
}

/// Groups text-keyed items by key.
pub fn group_by_key<V>(items: Vec<(String, V)>) -> (r: Vec<(String, Vec<V>)>)
    ensures
        group_views(crate::order::key_views(r@)) == groups_of(crate::order::key_views(items@)),
{
    let ghost input = crate::order::key_views(items@);
    let mut rest = items;
    let n: usize = rest.len();
    let mut out: Vec<(String, Vec<V>)> = Vec::new();
    let mut k: usize = 0;
    while rest.len() > 0
        invariant
            crate::order::key_views(rest@) == input.skip(k as int),
            k <= input.len(),
            input.len() == n,
            group_views(crate::order::key_views(out@)) == groups_of(input.take(k as int)),
        decreases rest@.len(),
    {
        let ghost rest_before = rest@;
        let (key, v) = rest.remove(0);
        proof {
            assert(crate::order::key_views(rest_before)[0] == (key@, v));
            assert(crate::order::key_views(rest_before).len() == rest_before.len());
            assert(input[k as int] == input.skip(k as int)[0]);
            assert(crate::order::key_views(rest@) =~= crate::order::key_views(rest_before).remove(0));
            assert(input.skip(k as int).remove(0) =~= input.skip(k + 1));
            assert(input.take(k + 1).drop_last() =~= input.take(k as int));
        }
        let ghost g = group_views(crate::order::key_views(out@));
        proof {
            lemma_group_index(g, key@, 0);
        }
        let mut j: usize = 0;
        while j < out.len() && !str_eq(out[j].0.as_str(), key.as_str())
            invariant
                g == group_views(crate::order::key_views(out@)),
                j <= out@.len(),
                group_index(g, key@, 0) == group_index(g, key@, j as int),
            decreases out@.len() - j,
        {
            assert(g[j as int].0 == out@[j as int].0@);
            j += 1;
        }
        if j < out.len() {
            assert(g[j as int].0 == out@[j as int].0@);
            let mut slot: (String, Vec<V>) = (String::new(), Vec::new());
            std::mem::swap(&mut slot, &mut out[j]);
            let ghost v_ghost = v;
            slot.1.push(v);
            out.set(j, slot);
            assert(group_views(crate::order::key_views(out@)) =~= g.update(
                j as int,
                (key@, g[j as int].1.push(v_ghost)),
            ));
        } else {
            let mut vs: Vec<V> = Vec::new();
            let ghost v_ghost = v;
            vs.push(v);
            let ghost kv = key@;
            out.push((key, vs));
            assert(group_views(crate::order::key_views(out@)) =~= g.push((kv, seq![v_ghost])));
        }
        k += 1;
    }
    assert(input.take(k as int) =~= input);
    out
}

/// The groups of `g` holding more than one item, in order.
pub open spec fn repeated<K, V>(g: Seq<(K, Seq<V>)>) -> Seq<(K, Seq<V>)>
    decreases g.len(),
{
    if g.len() == 0 {
        g
    } else if g.last().1.len() > 1 {
        repeated(g.drop_last()).push(g.last())
    } else {
        repeated(g.drop_last())
    }
}

/// Law: the groups kept are groups given that hold more than one item, and
/// every group given holding more than one item is kept.
pub proof fn law_repeated_groups<K, V>(g: Seq<(K, Seq<V>)>)
    ensures
        forall|a: int|
            0 <= a < repeated(g).len() ==> #[trigger] repeated(g)[a].1.len() > 1 && g.contains(repeated(g)[a]),
        forall|i: int| 0 <= i < g.len() && #[trigger] g[i].1.len() > 1 ==> repeated(g).contains(g[i]),
    decreases g.len(),
{
    if g.len() > 0 {
        let init = g.drop_last();
        law_repeated_groups(init);
        let r0 = repeated(init);
        let r = repeated(g);
        assert forall|a: int| 0 <= a < r.len() implies #[trigger] r[a].1.len() > 1 && g.contains(r[a]) by {
            if a < r0.len() {
                assert(r[a] == r0[a]);
                assert(r0[a].1.len() > 1);
                assert(init.contains(r0[a]));
                let w = choose|w: int| 0 <= w < init.len() && init[w] == r0[a];
                assert(g[w] == r[a]);
            } else {
                assert(r[a] == g.last());
                assert(g[g.len() - 1] == r[a]);
            }
        }
        assert forall|i: int| 0 <= i < g.len() && #[trigger] g[i].1.len() > 1 implies r.contains(g[i]) by {
            if i < g.len() - 1 {
                assert(init[i] == g[i]);
                assert(r0.contains(init[i]));
                let a = choose|a: int| 0 <= a < r0.len() && r0[a] == init[i];
                assert(r[a] == g[i]);
            } else {
                assert(r[r0.len() as int] == g[i]);
            }
        }
    }
}

/// Keeps the groups holding more than one item.
pub fn keep_repeated<K, V>(groups: Vec<(K, Vec<V>)>) -> (r: Vec<(K, Vec<V>)>)
    ensures
        group_views(r@) == repeated(group_views(groups@)),
{
    let ghost input = groups@;
    let mut rest = groups;
    let n: usize = rest.len();
    let mut out: Vec<(K, Vec<V>)> = Vec::new();
    let mut k: usize = 0;
    while rest.len() > 0
        invariant
            rest@ == input.skip(k as int),
            k <= input.len(),
            input.len() == n,
            group_views(out@) == repeated(group_views(input.take(k as int))),
        decreases rest@.len(),
    {
        let g = rest.remove(0);
        proof {
            assert(input.skip(k as int).remove(0) =~= input.skip(k + 1));
            assert(group_views(input.take(k + 1)).drop_last() =~= group_views(input.take(k as int)));
            assert(group_views(input.take(k + 1)).last() == (g.0, g.1@));
        }
        if g.1.len() > 1 {
            let ghost gv = (g.0, g.1@);
            let ghost before = group_views(out@);
            out.push(g);
            assert(group_views(out@) =~= before.push(gv));
        }
        k += 1;
    }
    assert(input.take(k as int) =~= input);
    out
}

/// The paths of files that are not hard links to one already kept: the
/// first path of each inode.
pub open spec fn first_per_inode(s: Seq<(String, u64)>) -> Seq<String>
    decreases s.len(),
{
    if s.len() == 0 {
        seq![]
    } else if (exists|i: int| 0 <= i < s.len() - 1 && #[trigger] s[i].1 == s.last().1) {
        first_per_inode(s.drop_last())
    } else {
        first_per_inode(s.drop_last()).push(s.last().0)
    }
}

/// Keeps the first path of each inode (later ones are hard links to it).
pub fn distinct_inodes(files: Vec<(String, u64)>) -> (r: Vec<String>)
    ensures
        r@ == first_per_inode(files@),
{
    let ghost input = files@;
    let mut rest = files;
    let n: usize = rest.len();
    let mut seen: Vec<u64> = Vec::new();
    let mut out: Vec<String> = Vec::new();
    let mut k: usize = 0;
    while rest.len() > 0
        invariant
            rest@ == input.skip(k as int),
            k <= input.len(),
            input.len() == n,
            out@ == first_per_inode(input.take(k as int)),
            seen@.len() == k,
            forall|i: int| 0 <= i < k ==> #[trigger] seen@[i] == input[i].1,
        decreases rest@.len(),
    {
        let (path, inode) = rest.remove(0);
        proof {
            assert(input.skip(k as int).remove(0) =~= input.skip(k + 1));
            assert(input[k as int] == input.skip(k as int)[0]);
        }
        let ghost t = input.take(k + 1);
        let mut j: usize = 0;
        let mut found = false;
        while j < seen.len()
            invariant
                j <= seen@.len(),
                found == exists|i: int| 0 <= i < j && #[trigger] seen@[i] == inode,
            decreases seen@.len() - j,
        {
            if seen[j] == inode {
                found = true;
            }
            j += 1;
        }
        proof {
            assert(t.drop_last() =~= input.take(k as int));
            assert(t.last() == (path, inode));
            if found {
                let i0 = choose|i: int| 0 <= i < j && #[trigger] seen@[i] == inode;
                assert(t[i0].1 == t.last().1);
            } else {
                assert forall|i: int| 0 <= i < t.len() - 1 implies #[trigger] t[i].1 != t.last().1 by {
                    assert(t[i] == input[i]);
                    assert(seen@[i] == input[i].1);
                }
            }
        }
        if !found {
            out.push(path);
        }
        seen.push(inode);
        k += 1;
    }
    assert(input.take(k as int) =~= input);
    out
}

/// The size written before the first `:` of a candidate key, or 0.
pub open spec fn key_size_of(key: Seq<char>) -> u64 {
    match crate::text::parsed_u64(split_on(key, ':')[0]) {
        Some(n) => n,
        None => 0,
    }
}

/// The size recorded in a candidate key.
pub fn key_size(key: &str) -> (r: u64)
    ensures
        r == key_size_of(key@),
{
    let parts = split_char(key, ':');
    assert(parts.deep_view().len() == parts@.len());
    assert(split_on(key@, ':').len() > 0);
    assert(parts.deep_view()[0] == parts@[0]@);
    match crate::text::parse_u64(parts[0].as_str()) {
        Some(n) => n,
        None => 0,
    }
}

/// The lower-case hexadecimal digit of `d` (< 16).
pub open spec fn hex_digit(d: u8) -> char {
    if d < 10 {
        (d + 48) as char
    } else {
        (d + 87) as char
    }
}

/// Bytes written in lower-case hexadecimal, two digits each (`{:x}` of a
/// digest).
pub open spec fn hex_of(b: Seq<u8>) -> Seq<char>
    decreases b.len(),
{
    if b.len() == 0 {
        seq![]
    } else {
        hex_of(b.drop_last()) + seq![hex_digit(b.last() / 16), hex_digit(b.last() % 16)]
    }
}

fn hex_char(d: u8) -> (c: char)
    requires
        d < 16,
    ensures
        c == hex_digit(d),
{
    let digits: [char; 16] = ['0', '1', '2', '3', '4', '5', '6', '7', '8', '9', 'a', 'b', 'c', 'd', 'e', 'f'];
    let c = digits[d as usize];
    proof {
        assert(digits@ == seq!['0', '1', '2', '3', '4', '5', '6', '7', '8', '9', 'a', 'b', 'c', 'd', 'e', 'f']);
    }
    c
}

/// A digest in lower-case hexadecimal.
pub fn hex_digest(bytes: &[u8]) -> (r: String)
    ensures
        r@ == hex_of(bytes@),
{
    let mut out = String::new();
    let mut i: usize = 0;
    while i < bytes.len()
        invariant
            i <= bytes@.len(),
            out@ == hex_of(bytes@.take(i as int)),
        decreases bytes@.len() - i,
    {
        assert(bytes@.take(i + 1).drop_last() =~= bytes@.take(i as int));
        let b = bytes[i];
        push_char(&mut out, hex_char(b / 16));
        push_char(&mut out, hex_char(b % 16));
        assert(out@ =~= hex_of(bytes@.take(i as int)) + seq![hex_digit(b / 16), hex_digit(b % 16)]);
        i += 1;
    }
    assert(bytes@.take(i as int) =~= bytes@);
    out
}

/// The key grouping files by their full content: `size:` and the first 16
/// hexadecimal digits of their SHA-256 digest.
pub open spec fn content_key_of(size: u64, digest: Seq<u8>) -> Seq<char> {
    decimal_text(size as nat) + seq![':'] + hex_of(digest).take(16)
}

/// The key grouping files by their full content, from their SHA-256
/// digest (32 bytes).
pub fn content_key(size: u64, digest: &[u8]) -> (r: String)
    requires
        digest@.len() == 32,
    ensures
        r@ == content_key_of(size, digest@),
{
    let hex = hex_digest(&digest[0..8]);
    proof {
        lemma_hex_of_len(digest@);
        lemma_hex_of_prefix(digest@, 8);
        assert(digest@.subrange(0, 8) =~= digest@.take(8));
    }
    let mut r = String::new();
    push_decimal(&mut r, size);
    push_char(&mut r, ':');
    push_str(&mut r, hex.as_str());
    r
}

proof fn lemma_hex_of_len(b: Seq<u8>)
    ensures
        hex_of(b).len() == 2 * b.len(),
    decreases b.len(),
{
    if b.len() > 0 {
        lemma_hex_of_len(b.drop_last());
    }
}

proof fn lemma_hex_of_prefix(b: Seq<u8>, k: int)
    requires
        0 <= k <= b.len(),
    ensures
        hex_of(b).take(2 * k) == hex_of(b.take(k)),
    decreases b.len(),
{
    lemma_hex_of_len(b);
    lemma_hex_of_len(b.take(k));
    if k < b.len() {
        assert(b.drop_last().take(k) =~= b.take(k));
        lemma_hex_of_prefix(b.drop_last(), k);
        lemma_hex_of_len(b.drop_last());
        assert(hex_of(b).take(2 * k) =~= hex_of(b.drop_last()).take(2 * k));
    } else {
        assert(b.take(k) =~= b);
        assert(hex_of(b).take(2 * k) =~= hex_of(b));
    }
}

} // verus!
