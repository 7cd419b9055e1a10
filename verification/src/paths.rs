//! A model of how a Unix path splits into components, and the component-wise
//! comparisons (`starts_with`, equality, ordering) that the guards rely on.
use vstd::prelude::*;
use crate::text::{chars_of, has_at, string_of_range};

verus! {

/// The component standing for the root directory of an absolute path.
/// No other component can contain `/`, so it never clashes with a name.
pub open spec fn root_comp() -> Seq<char> {
    seq!['/']
}

/// A Unix path is absolute when it begins with `/`.
pub open spec fn has_root(s: Seq<char>) -> bool {
    s.len() > 0 && s[0] == '/'
}

/// A segment between separators is a component unless it is empty or `.`.
pub open spec fn is_kept_segment(seg: Seq<char>) -> bool {
    seg.len() > 0 && seg != seq!['.']
}

pub open spec fn close_segment(done: Seq<Seq<char>>, cur: Seq<char>) -> Seq<Seq<char>> {
    if is_kept_segment(cur) {
        done.push(cur)
    } else {
        done
    }
}

/// The components completed, and the segment being read, after the first `i`
/// characters of `s`.
pub open spec fn scan(s: Seq<char>, i: int) -> (Seq<Seq<char>>, Seq<char>)
    decreases i,
{
    if i <= 0 {
        (seq![], seq![])
    } else {
        let prev = scan(s, i - 1);
        if s[i - 1] == '/' {
            (close_segment(prev.0, prev.1), seq![])
        } else {
            (prev.0, prev.1.push(s[i - 1]))
        }
    }
}

/// The named components of `s`: its `/`-separated segments, without empty
/// segments and without `.`.
pub open spec fn normal_comps(s: Seq<char>) -> Seq<Seq<char>> {
    close_segment(scan(s, s.len() as int).0, scan(s, s.len() as int).1)
}

/// The components of a path: the root (when absolute) followed by its named
/// components.
pub open spec fn path_comps(s: Seq<char>) -> Seq<Seq<char>> {
    if has_root(s) {
        seq![root_comp()] + normal_comps(s)
    } else {
        normal_comps(s)
    }
}

/// `prefix` is a leading run of the components `c`.
pub open spec fn comps_start_with(c: Seq<Seq<char>>, prefix: Seq<Seq<char>>) -> bool {
    prefix.len() <= c.len() && c.subrange(0, prefix.len() as int) == prefix
}

/// The absolute path whose named components are `segs`.
pub open spec fn abs_path(segs: Seq<Seq<char>>) -> Seq<Seq<char>> {
    seq![root_comp()] + segs
}

/// The views of a list of string slices.
pub open spec fn strs_view(segs: Seq<&str>) -> Seq<Seq<char>> {
    segs.map_values(|s: &str| s@)
}

/// A path split into components; the named components are ranges of `chars`.
pub struct PathParts {
    pub chars: Vec<char>,
    pub rooted: bool,
    pub ranges: Vec<(usize, usize)>,
}

impl PathParts {
    pub open spec fn wf(&self) -> bool {
        &&& forall|k: int|
            0 <= k < self.ranges@.len() ==> #[trigger] self.ranges@[k].0 <= self.ranges@[k].1
                <= self.chars@.len()
        &&& forall|k: int| 0 <= k < self.ranges@.len() ==> #[trigger] self.comp(k) != root_comp()
        &&& 2 * self.ranges@.len() <= self.chars@.len() + 1
        &&& self.chars@.len() <= usize::MAX
    }

    pub open spec fn comp(&self, k: int) -> Seq<char> {
        self.chars@.subrange(self.ranges@[k].0 as int, self.ranges@[k].1 as int)
    }

    pub open spec fn normals(&self) -> Seq<Seq<char>> {
        Seq::new(self.ranges@.len(), |k: int| self.comp(k))
    }

    /// The components: the root first when the path is absolute.
    pub open spec fn comps(&self) -> Seq<Seq<char>> {
        if self.rooted {
            seq![root_comp()] + self.normals()
        } else {
            self.normals()
        }
    }

    /// Splits `s` into its components.
    #[verifier::spinoff_prover]
    pub fn parse(s: &str) -> (p: PathParts)
        ensures
            p.wf(),
            p.chars@ == s@,
            p.rooted == has_root(s@),
            p.comps() == path_comps(s@),
            p.normals() == normal_comps(s@),
    {
        let chars = chars_of(s);
        let n = chars.len();
        let mut ranges: Vec<(usize, usize)> = Vec::new();
        let mut start: usize = 0;
        let mut i: usize = 0;
        while i < n
            invariant
                n == chars@.len(),
                chars@ == s@,
                start <= i <= n,
                forall|k: int|
                    0 <= k < ranges@.len() ==> #[trigger] ranges@[k].0 <= ranges@[k].1 <= n,
                forall|k: int|
                    0 <= k < ranges@.len() ==> #[trigger] chars@.subrange(ranges@[k].0 as int, ranges@[k].1 as int) != root_comp(),
                forall|t: int| start <= t < i ==> #[trigger] chars@[t] != '/',
                2 * ranges@.len() <= start,
                n == chars.len(),
                Seq::new(ranges@.len(), |k: int| chars@.subrange(ranges@[k].0 as int, ranges@[k].1 as int))
                    == scan(s@, i as int).0,
                chars@.subrange(start as int, i as int) == scan(s@, i as int).1,
            decreases n - i,
        {
            let ghost old_ranges = ranges@;
            if chars[i] == '/' {
                let keep = i > start && !(i == start + 1 && chars[start] == '.');
                proof {
                    let cur = chars@.subrange(start as int, i as int);
                    if i == start + 1 {
                        assert(cur.len() == 1);
                        assert(cur[0] == chars@[start as int]);
                        assert(chars[start as int] == '.' ==> cur =~= seq!['.']);
                        assert(cur =~= seq!['.'] ==> chars[start as int] == '.');
                    } else if i > start + 1 {
                        assert(cur.len() > 1);
                        assert(cur != seq!['.']);
                    }
                    assert(keep == is_kept_segment(cur));
                }
                if keep {
                    assert(chars@.subrange(start as int, i as int)[0] != '/');
                    ranges.push((start, i));
                    assert(Seq::new(ranges@.len(), |k: int| chars@.subrange(ranges@[k].0 as int, ranges@[k].1 as int))
                        =~= Seq::new(old_ranges.len(), |k: int| chars@.subrange(old_ranges[k].0 as int, old_ranges[k].1 as int)).push(chars@.subrange(start as int, i as int)));
                }
                start = i + 1;
                assert(chars@.subrange(start as int, (i + 1) as int) =~= seq![]);
            } else {
                assert(chars@.subrange(start as int, (i + 1) as int) =~= chars@.subrange(start as int, i as int).push(chars@[i as int]));
            }
            i += 1;
        }
        let ghost before = ranges@;
        let keep = n > start && !(n == start + 1 && chars[start] == '.');
        proof {
            let cur = chars@.subrange(start as int, n as int);
            if n == start + 1 {
                assert(cur.len() == 1);
                assert(cur[0] == chars@[start as int]);
                assert(chars[start as int] == '.' ==> cur =~= seq!['.']);
                assert(cur =~= seq!['.'] ==> chars[start as int] == '.');
            } else if n > start + 1 {
                assert(cur.len() > 1);
                assert(cur != seq!['.']);
            }
            assert(keep == is_kept_segment(cur));
        }
        if keep {
            assert(chars@.subrange(start as int, n as int)[0] != '/');
            ranges.push((start, n));
            assert(Seq::new(ranges@.len(), |k: int| chars@.subrange(ranges@[k].0 as int, ranges@[k].1 as int))
                =~= Seq::new(before.len(), |k: int| chars@.subrange(before[k].0 as int, before[k].1 as int)).push(chars@.subrange(start as int, n as int)));
        }
        let rooted = n > 0 && chars[0] == '/';
        let p = PathParts { chars, rooted, ranges };
        assert(p.normals() =~= normal_comps(s@));
        p
    }

    /// The number of components.
    pub fn comps_len(&self) -> (n: usize)
        requires
            self.wf(),
        ensures
            n == self.comps().len(),
    {
        if self.rooted {
            self.ranges.len() + 1
        } else {
            self.ranges.len()
        }
    }

    /// Whether component `t` of `self` equals component `u` of `other`.
    pub fn comp_matches(&self, t: usize, other: &PathParts, u: usize) -> (r: bool)
        requires
            self.wf(),
            other.wf(),
            t < self.comps().len(),
            u < other.comps().len(),
        ensures
            r == (self.comps()[t as int] == other.comps()[u as int]),
    {
        let self_root = self.rooted && t == 0;
        let other_root = other.rooted && u == 0;
        if self_root && other_root {
            return true;
        }
        if self_root {
            assert(other.comps()[u as int] == other.comp(if other.rooted { u - 1 } else { u as int }));
            return false;
        }
        if other_root {
            assert(self.comps()[t as int] == self.comp(if self.rooted { t - 1 } else { t as int }));
            return false;
        }
        let k = if self.rooted { t - 1 } else { t };
        let j = if other.rooted { u - 1 } else { u };
        assert(self.comps()[t as int] == self.comp(k as int));
        assert(other.comps()[u as int] == other.comp(j as int));
        self.comp_eq(k, other, j)
    }

    /// Whether component `t` equals `lit`.
    pub fn comp_matches_str(&self, t: usize, lit: &str) -> (r: bool)
        requires
            self.wf(),
            t < self.comps().len(),
        ensures
            r == (self.comps()[t as int] == lit@),
    {
        if self.rooted && t == 0 {
            let n = lit.unicode_len();
            if n != 1 {
                return false;
            }
            let c = lit.get_char(0);
            if c == '/' {
                assert(lit@ =~= root_comp());
            }
            return c == '/';
        }
        let k = if self.rooted { t - 1 } else { t };
        assert(self.comps()[t as int] == self.comp(k as int));
        self.comp_is(k, lit)
    }

    /// Whether the path starts with `base` joined with the relative path whose
    /// named components are `segs`.
    pub fn starts_with_joined(&self, base: &PathParts, segs: &[&str]) -> (r: bool)
        requires
            self.wf(),
            base.wf(),
        ensures
            r == comps_start_with(self.comps(), base.comps() + strs_view(segs@)),
    {
        let ghost want = base.comps() + strs_view(segs@);
        let n = self.comps_len();
        let bl = base.comps_len();
        if bl > n || segs.len() > n - bl {
            return false;
        }
        let mut t: usize = 0;
        while t < bl
            invariant
                self.wf(),
                base.wf(),
                want == base.comps() + strs_view(segs@),
                n == self.comps().len(),
                bl == base.comps().len(),
                bl + segs@.len() <= n,
                t <= bl,
                forall|x: int| 0 <= x < t ==> #[trigger] self.comps()[x] == want[x],
            decreases bl - t,
        {
            if !self.comp_matches(t, base, t) {
                assert(self.comps().subrange(0, want.len() as int)[t as int] != want[t as int]);
                return false;
            }
            t += 1;
        }
        let mut i: usize = 0;
        while i < segs.len()
            invariant
                self.wf(),
                base.wf(),
                want == base.comps() + strs_view(segs@),
                n == self.comps().len(),
                bl == base.comps().len(),
                bl + segs@.len() <= n,
                i <= segs@.len(),
                forall|x: int| 0 <= x < bl + i ==> #[trigger] self.comps()[x] == want[x],
            decreases segs.len() - i,
        {
            if !self.comp_matches_str(bl + i, segs[i]) {
                assert(self.comps().subrange(0, want.len() as int)[bl + i] != want[bl + i]);
                return false;
            }
            i += 1;
        }
        assert(self.comps().subrange(0, want.len() as int) =~= want);
        true
    }

    /// Whether the path equals `base` joined with the relative path whose named
    /// components are `segs`.
    pub fn equals_joined(&self, base: &PathParts, segs: &[&str]) -> (r: bool)
        requires
            self.wf(),
            base.wf(),
        ensures
            r == (self.comps() == base.comps() + strs_view(segs@)),
    {
        let s = self.starts_with_joined(base, segs);
        let n = self.comps_len();
        let bl = base.comps_len();
        let r = s && bl <= n && segs.len() == n - bl;
        proof {
            let want = base.comps() + strs_view(segs@);
            if r {
                assert(self.comps().subrange(0, want.len() as int) =~= self.comps());
            }
            if self.comps() == want {
                assert(self.comps().subrange(0, want.len() as int) =~= self.comps());
            }
        }
        r
    }

    /// Whether the path starts with `other`.
    pub fn starts_with_parts(&self, other: &PathParts) -> (r: bool)
        requires
            self.wf(),
            other.wf(),
        ensures
            r == comps_start_with(self.comps(), other.comps()),
    {
        let a: [&str; 0] = [];
        assert(strs_view(a@) =~= Seq::<Seq<char>>::empty());
        assert(other.comps() + strs_view(a@) =~= other.comps());
        self.starts_with_joined(other, &a)
    }

    /// Whether the path has the same components as `other`.
    pub fn equals_parts(&self, other: &PathParts) -> (r: bool)
        requires
            self.wf(),
            other.wf(),
        ensures
            r == (self.comps() == other.comps()),
    {
        let a: [&str; 0] = [];
        assert(strs_view(a@) =~= Seq::<Seq<char>>::empty());
        assert(other.comps() + strs_view(a@) =~= other.comps());
        self.equals_joined(other, &a)
    }

    /// Whether the path is the absolute path whose named components are `segs`.
    pub fn is_abs(&self, segs: &[&str]) -> (r: bool)
        requires
            self.wf(),
        ensures
            r == (self.comps() == abs_path(strs_view(segs@))),
    {
        let s = self.starts_with_abs(segs);
        let n = self.comps_len();
        let r = s && n >= 1 && segs.len() == n - 1;
        proof {
            let want = abs_path(strs_view(segs@));
            if r {
                assert(self.comps().subrange(0, want.len() as int) =~= self.comps());
            }
            if self.comps() == want {
                assert(self.comps().subrange(0, want.len() as int) =~= self.comps());
            }
        }
        r
    }

    /// Whether the path starts with the absolute path whose named components
    /// are `segs`.
    pub fn starts_with_abs(&self, segs: &[&str]) -> (r: bool)
        requires
            self.wf(),
        ensures
            r == comps_start_with(self.comps(), abs_path(strs_view(segs@))),
    {
        let ghost want = abs_path(strs_view(segs@));
        if !self.rooted {
            proof {
                if want.len() <= self.comps().len() {
                    assert(self.comps().subrange(0, want.len() as int)[0] == self.comp(0));
                    assert(want[0] == root_comp());
                }
            }
            return false;
        }
        if segs.len() > self.ranges.len() {
            return false;
        }
        let mut i: usize = 0;
        while i < segs.len()
            invariant
                self.wf(),
                self.rooted,
                segs.len() <= self.ranges@.len(),
                want == abs_path(strs_view(segs@)),
                i <= segs.len(),
                forall|t: int| 0 <= t < i ==> #[trigger] self.comp(t) == segs@[t]@,
            decreases segs.len() - i,
        {
            if !self.comp_is(i, segs[i]) {
                assert(self.comps().subrange(0, want.len() as int)[i + 1] != want[i + 1]);
                return false;
            }
            i += 1;
        }
        assert(self.comps().subrange(0, want.len() as int) =~= want);
        true
    }

    /// Whether named component `k` equals `lit`.
    pub fn comp_is(&self, k: usize, lit: &str) -> (r: bool)
        requires
            self.wf(),
            k < self.ranges@.len(),
        ensures
            r == (self.comp(k as int) == lit@),
    {
        let (a, b) = self.ranges[k];
        if b - a != lit.unicode_len() {
            return false;
        }
        let r = has_at(&self.chars, a, lit);
        r
    }

    /// Whether named component `k` of `self` equals named component `j` of `other`.
    pub fn comp_eq(&self, k: usize, other: &PathParts, j: usize) -> (r: bool)
        requires
            self.wf(),
            other.wf(),
            k < self.ranges@.len(),
            j < other.ranges@.len(),
        ensures
            r == (self.comp(k as int) == other.comp(j as int)),
    {
        let (a, b) = self.ranges[k];
        let (c, d) = other.ranges[j];
        assert(self.comp(k as int).len() == b - a);
        assert(other.comp(j as int).len() == d - c);
        if b - a != d - c {
            return false;
        }
        let mut i: usize = 0;
        while i < b - a
            invariant
                self.wf(),
                other.wf(),
                k < self.ranges@.len(),
                j < other.ranges@.len(),
                (a, b) == self.ranges@[k as int],
                (c, d) == other.ranges@[j as int],
                a <= b <= self.chars.len(),
                c <= d <= other.chars.len(),
                b - a == d - c,
                i <= b - a,
                forall|t: int| 0 <= t < i ==> #[trigger] self.comp(k as int)[t] == other.comp(j as int)[t],
            decreases b - a - i,
        {
            assert(self.comp(k as int)[i as int] == self.chars@[a + i]);
            assert(other.comp(j as int)[i as int] == other.chars@[c + i]);
            if self.chars[a + i] != other.chars[c + i] {
                return false;
            }
            i += 1;
        }
        assert(self.comp(k as int) =~= other.comp(j as int));
        true
    }
}


/// `p` starts with `/a`.
pub fn starts_abs1(p: &PathParts, a: &str) -> (r: bool)
    requires
        p.wf(),
    ensures
        r == comps_start_with(p.comps(), abs_path(seq![a@])),
{
    let arr = [a];
    assert(arr@ =~= seq![a]);
    assert(strs_view(arr@) =~= seq![a@]);
    p.starts_with_abs(&arr)
}

/// `p` starts with `/a/b`.
pub fn starts_abs2(p: &PathParts, a: &str, b: &str) -> (r: bool)
    requires
        p.wf(),
    ensures
        r == comps_start_with(p.comps(), abs_path(seq![a@, b@])),
{
    let arr = [a, b];
    assert(arr@ =~= seq![a, b]);
    assert(strs_view(arr@) =~= seq![a@, b@]);
    p.starts_with_abs(&arr)
}

/// `p` starts with `/a/b/c`.
pub fn starts_abs3(p: &PathParts, a: &str, b: &str, c: &str) -> (r: bool)
    requires
        p.wf(),
    ensures
        r == comps_start_with(p.comps(), abs_path(seq![a@, b@, c@])),
{
    let arr = [a, b, c];
    assert(arr@ =~= seq![a, b, c]);
    assert(strs_view(arr@) =~= seq![a@, b@, c@]);
    p.starts_with_abs(&arr)
}

/// `p` is `/`.
pub fn is_root_path(p: &PathParts) -> (r: bool)
    requires
        p.wf(),
    ensures
        r == (p.comps() == abs_path(seq![])),
{
    let arr: [&str; 0] = [];
    assert(strs_view(arr@) =~= Seq::<Seq<char>>::empty());
    p.is_abs(&arr)
}

/// `p` is `/a`.
pub fn is_abs1(p: &PathParts, a: &str) -> (r: bool)
    requires
        p.wf(),
    ensures
        r == (p.comps() == abs_path(seq![a@])),
{
    let arr = [a];
    assert(arr@ =~= seq![a]);
    assert(strs_view(arr@) =~= seq![a@]);
    p.is_abs(&arr)
}

/// `p` is `/a/b`.
pub fn is_abs2(p: &PathParts, a: &str, b: &str) -> (r: bool)
    requires
        p.wf(),
    ensures
        r == (p.comps() == abs_path(seq![a@, b@])),
{
    let arr = [a, b];
    assert(arr@ =~= seq![a, b]);
    assert(strs_view(arr@) =~= seq![a@, b@]);
    p.is_abs(&arr)
}

/// `p` starts with `base/a`.
pub fn starts_under1(p: &PathParts, base: &PathParts, a: &str) -> (r: bool)
    requires
        p.wf(),
        base.wf(),
    ensures
        r == comps_start_with(p.comps(), base.comps() + seq![a@]),
{
    let arr = [a];
    assert(arr@ =~= seq![a]);
    assert(strs_view(arr@) =~= seq![a@]);
    p.starts_with_joined(base, &arr)
}

/// `p` starts with `base/a/b`.
pub fn starts_under2(p: &PathParts, base: &PathParts, a: &str, b: &str) -> (r: bool)
    requires
        p.wf(),
        base.wf(),
    ensures
        r == comps_start_with(p.comps(), base.comps() + seq![a@, b@]),
{
    let arr = [a, b];
    assert(arr@ =~= seq![a, b]);
    assert(strs_view(arr@) =~= seq![a@, b@]);
    p.starts_with_joined(base, &arr)
}

/// `p` starts with `base/a/b/c`.
pub fn starts_under3(p: &PathParts, base: &PathParts, a: &str, b: &str, c: &str) -> (r: bool)
    requires
        p.wf(),
        base.wf(),
    ensures
        r == comps_start_with(p.comps(), base.comps() + seq![a@, b@, c@]),
{
    let arr = [a, b, c];
    assert(arr@ =~= seq![a, b, c]);
    assert(strs_view(arr@) =~= seq![a@, b@, c@]);
    p.starts_with_joined(base, &arr)
}

/// `p` starts with `base/a/b/c/d`.
pub fn starts_under4(p: &PathParts, base: &PathParts, a: &str, b: &str, c: &str, d: &str) -> (r: bool)
    requires
        p.wf(),
        base.wf(),
    ensures
        r == comps_start_with(p.comps(), base.comps() + seq![a@, b@, c@, d@]),
{
    let arr = [a, b, c, d];
    assert(arr@ =~= seq![a, b, c, d]);
    assert(strs_view(arr@) =~= seq![a@, b@, c@, d@]);
    p.starts_with_joined(base, &arr)
}

/// `p` is `base/a`.
pub fn is_under1(p: &PathParts, base: &PathParts, a: &str) -> (r: bool)
    requires
        p.wf(),
        base.wf(),
    ensures
        r == (p.comps() == base.comps() + seq![a@]),
{
    let arr = [a];
    assert(arr@ =~= seq![a]);
    assert(strs_view(arr@) =~= seq![a@]);
    p.equals_joined(base, &arr)
}


/// The last component when it is a name (`Path::file_name`).
pub open spec fn file_name(c: Seq<Seq<char>>) -> Option<Seq<char>> {
    if c.len() == 0 || c.last() == root_comp() || c.last() == ".."@ {
        None
    } else {
        Some(c.last())
    }
}

/// The index of the last `.` in `s`, or -1.
pub open spec fn last_dot(s: Seq<char>) -> int
    decreases s.len(),
{
    if s.len() == 0 {
        -1
    } else if s.last() == '.' {
        s.len() - 1
    } else {
        last_dot(s.drop_last())
    }
}

/// The extension of a file name (`Path::extension`): what follows the last
/// `.`, unless that dot begins the name or there is none.
pub open spec fn name_extension(name: Seq<char>) -> Option<Seq<char>> {
    if name == ".."@ || last_dot(name) <= 0 {
        None
    } else {
        Some(name.subrange(last_dot(name) + 1, name.len() as int))
    }
}

/// The extension of the path's file name.
pub open spec fn path_extension(c: Seq<Seq<char>>) -> Option<Seq<char>> {
    match file_name(c) {
        None => None,
        Some(n) => name_extension(n),
    }
}

pub proof fn lemma_last_dot(s: Seq<char>)
    ensures
        -1 <= last_dot(s) < s.len(),
        last_dot(s) >= 0 ==> s[last_dot(s)] == '.',
        forall|i: int| last_dot(s) < i < s.len() ==> #[trigger] s[i] != '.',
    decreases s.len(),
{
    if s.len() > 0 && s.last() != '.' {
        lemma_last_dot(s.drop_last());
        assert forall|i: int| last_dot(s) < i < s.len() implies #[trigger] s[i] != '.' by {
            if i < s.len() - 1 {
                assert(s[i] == s.drop_last()[i]);
            }
        }
    }
}

pub proof fn lemma_last_dot_unique(s: Seq<char>, k: int)
    requires
        -1 <= k < s.len(),
        k >= 0 ==> s[k] == '.',
        forall|i: int| k < i < s.len() ==> #[trigger] s[i] != '.',
    ensures
        last_dot(s) == k,
{
    lemma_last_dot(s);
    if last_dot(s) < k {
        assert(s[k] != '.');
    }
    if last_dot(s) > k {
        assert(s[last_dot(s)] != '.');
    }
}

/// The stem of a file name (`Path::file_stem`): what precedes the last `.`,
/// unless that dot begins the name or there is none.
pub open spec fn name_stem(name: Seq<char>) -> Seq<char> {
    if last_dot(name) <= 0 {
        name
    } else {
        name.subrange(0, last_dot(name))
    }
}

/// The stem of the path's file name.
pub open spec fn path_stem(c: Seq<Seq<char>>) -> Option<Seq<char>> {
    match file_name(c) {
        None => None,
        Some(n) => Some(name_stem(n)),
    }
}

impl PathParts {
    /// The range of the file name within `chars`, when there is one.
    pub fn file_name_range(&self) -> (r: Option<(usize, usize)>)
        requires
            self.wf(),
        ensures
            match r {
                None => file_name(self.comps()).is_none(),
                Some((a, b)) => a <= b <= self.chars@.len() && file_name(self.comps()) == Some(
                    self.chars@.subrange(a as int, b as int),
                ),
            },
    {
        let n = self.ranges.len();
        if n == 0 {
            proof {
                if self.comps().len() > 0 {
                    assert(self.comps().last() == root_comp());
                }
            }
            return None;
        }
        assert(self.comps().last() == self.comp(n - 1));
        if self.comp_is(n - 1, "..") {
            return None;
        }
        let (a, b) = self.ranges[n - 1];
        Some((a, b))
    }

    /// The range of the extension within `chars`, when there is one.
    pub fn extension_range(&self) -> (r: Option<(usize, usize)>)
        requires
            self.wf(),
        ensures
            match r {
                None => path_extension(self.comps()).is_none(),
                Some((a, b)) => a <= b <= self.chars@.len() && path_extension(self.comps())
                    == Some(self.chars@.subrange(a as int, b as int)),
            },
    {
        match self.file_name_range() {
            None => None,
            Some((a, b)) => {
                let ghost name = self.chars@.subrange(a as int, b as int);
                let mut k = b;
                while k > a && self.chars[k - 1] != '.'
                    invariant
                        a <= k <= b <= self.chars@.len(),
                        name == self.chars@.subrange(a as int, b as int),
                        forall|i: int| k - a <= i < name.len() ==> #[trigger] name[i] != '.',
                    decreases k,
                {
                    assert(name[k - 1 - a] == self.chars@[k - 1]);
                    k -= 1;
                }
                // k - 1 - a is the last dot of the name, or there is none (k == a)
                proof {
                    if k > a {
                        assert(name[k - 1 - a] == self.chars@[k - 1]);
                        lemma_last_dot_unique(name, k - 1 - a);
                    } else {
                        lemma_last_dot_unique(name, -1);
                    }
                }
                if k - a <= 1 {
                    return None;
                }
                assert(name.subrange(k - a, name.len() as int) =~= self.chars@.subrange(k as int, b as int));
                Some((k, b))
            },
        }
    }
}


impl PathParts {
    /// Whether the path's extension is `lit`.
    pub fn extension_is(&self, lit: &str) -> (r: bool)
        requires
            self.wf(),
        ensures
            r == (path_extension(self.comps()) == Some(lit@)),
    {
        match self.extension_range() {
            None => false,
            Some((a, b)) => b - a == lit.unicode_len() && has_at(&self.chars, a, lit),
        }
    }

    /// Whether the path's file name is `lit`.
    pub fn file_name_is(&self, lit: &str) -> (r: bool)
        requires
            self.wf(),
        ensures
            r == (file_name(self.comps()) == Some(lit@)),
    {
        match self.file_name_range() {
            None => false,
            Some((a, b)) => b - a == lit.unicode_len() && has_at(&self.chars, a, lit),
        }
    }
}


/// The file stem of a path, or nothing when it has no file name.
pub open spec fn stem_or_empty(s: Seq<char>) -> Seq<char> {
    match path_stem(path_comps(s)) {
        Some(x) => x,
        None => seq![],
    }
}

/// The file stem of `path` (`Path::file_stem`), empty when it has none.
pub fn file_stem_of(path: &str) -> (r: String)
    ensures
        r@ == stem_or_empty(path@),
{
    let p = PathParts::parse(path);
    match p.stem_range() {
        Some((a, b)) => string_of_range(&p.chars, a, b),
        None => String::new(),
    }
}

/// The file name of `path` (`Path::file_name`).
pub fn file_name_of(path: &str) -> (r: Option<String>)
    ensures
        match file_name(path_comps(path@)) {
            Some(n) => r is Some && r->0@ == n,
            None => r is None,
        },
{
    let p = PathParts::parse(path);
    match p.file_name_range() {
        Some((a, b)) => Some(string_of_range(&p.chars, a, b)),
        None => None,
    }
}

/// Whether the extension of `path` is `lit`.
pub fn has_extension(path: &str, lit: &str) -> (r: bool)
    ensures
        r == (path_extension(path_comps(path@)) == Some(lit@)),
{
    let p = PathParts::parse(path);
    p.extension_is(lit)
}

// ── Ordering (`Ord` for `Path`) ──────────────────────────────────────────────

/// Lexicographic order on character sequences (byte order of their UTF-8
/// encodings, which follows code points).
pub open spec fn chars_lt(a: Seq<char>, b: Seq<char>) -> bool
    decreases a.len(),
{
    if a.len() == 0 {
        b.len() > 0
    } else if b.len() == 0 {
        false
    } else if a[0] != b[0] {
        (a[0] as u32) < (b[0] as u32)
    } else {
        chars_lt(a.drop_first(), b.drop_first())
    }
}

/// Components are ordered root first, then `..`, then names.
pub open spec fn comp_rank(c: Seq<char>) -> int {
    if c == root_comp() {
        0
    } else if c == ".."@ {
        1
    } else {
        2
    }
}

pub open spec fn comp_lt(a: Seq<char>, b: Seq<char>) -> bool {
    comp_rank(a) < comp_rank(b) || (comp_rank(a) == 2 && comp_rank(b) == 2 && chars_lt(a, b))
}

/// Lexicographic order on component sequences: how `Path` orders.
pub open spec fn comps_lt(a: Seq<Seq<char>>, b: Seq<Seq<char>>) -> bool
    decreases a.len(),
{
    if a.len() == 0 {
        b.len() > 0
    } else if b.len() == 0 {
        false
    } else if a[0] != b[0] {
        comp_lt(a[0], b[0])
    } else {
        comps_lt(a.drop_first(), b.drop_first())
    }
}

pub proof fn lemma_chars_lt_strict(a: Seq<char>, b: Seq<char>)
    ensures
        !chars_lt(a, a),
        chars_lt(a, b) ==> !chars_lt(b, a),
        a != b ==> chars_lt(a, b) || chars_lt(b, a),
    decreases a.len(),
{
    if a.len() > 0 {
        lemma_chars_lt_strict(a.drop_first(), a.drop_first());
        if b.len() > 0 {
            lemma_chars_lt_strict(a.drop_first(), b.drop_first());
            if a[0] == b[0] && a != b {
                assert(a.drop_first() != b.drop_first()) by {
                    if a.drop_first() == b.drop_first() {
                        assert(a =~= seq![a[0]] + a.drop_first());
                        assert(b =~= seq![b[0]] + b.drop_first());
                    }
                }
            }
            if a[0] != b[0] {
                vstd::utf8::char_u32_cast(a[0], a[0] as u32);
                vstd::utf8::char_u32_cast(b[0], b[0] as u32);
            }
        }
    } else {
        if b.len() == 0 {
            assert(a =~= b);
        }
    }
}

pub proof fn lemma_comps_lt_strict(a: Seq<Seq<char>>, b: Seq<Seq<char>>)
    ensures
        !comps_lt(a, a),
        comps_lt(a, b) ==> !comps_lt(b, a),
        a != b ==> comps_lt(a, b) || comps_lt(b, a),
    decreases a.len(),
{
    if a.len() > 0 {
        lemma_comps_lt_strict(a.drop_first(), a.drop_first());
        if b.len() > 0 {
            lemma_comps_lt_strict(a.drop_first(), b.drop_first());
            lemma_chars_lt_strict(a[0], b[0]);
            if a[0] == b[0] && a != b {
                assert(a.drop_first() != b.drop_first()) by {
                    if a.drop_first() == b.drop_first() {
                        assert(a =~= seq![a[0]] + a.drop_first());
                        assert(b =~= seq![b[0]] + b.drop_first());
                    }
                }
            }
        }
    } else {
        if b.len() == 0 {
            assert(a =~= b);
        }
    }
}

pub proof fn lemma_chars_lt_trans(a: Seq<char>, b: Seq<char>, c: Seq<char>)
    requires
        chars_lt(a, b),
        chars_lt(b, c),
    ensures
        chars_lt(a, c),
    decreases a.len(),
{
    if a.len() > 0 && a[0] == b[0] && b[0] == c[0] {
        lemma_chars_lt_trans(a.drop_first(), b.drop_first(), c.drop_first());
    }
}

pub proof fn lemma_comp_lt_trans(a: Seq<char>, b: Seq<char>, c: Seq<char>)
    requires
        comp_lt(a, b),
        comp_lt(b, c),
    ensures
        comp_lt(a, c),
{
    if comp_rank(a) == 2 && comp_rank(b) == 2 && comp_rank(c) == 2 {
        lemma_chars_lt_trans(a, b, c);
    }
}

/// `Path`'s order is transitive.
pub proof fn lemma_comps_lt_trans(a: Seq<Seq<char>>, b: Seq<Seq<char>>, c: Seq<Seq<char>>)
    requires
        comps_lt(a, b),
        comps_lt(b, c),
    ensures
        comps_lt(a, c),
    decreases a.len(),
{
    if a.len() > 0 && b.len() > 0 && c.len() > 0 {
        lemma_chars_lt_strict(a[0], b[0]);
        lemma_chars_lt_strict(b[0], c[0]);
        lemma_chars_lt_strict(a[0], c[0]);
        if a[0] == b[0] && b[0] == c[0] {
            lemma_comps_lt_trans(a.drop_first(), b.drop_first(), c.drop_first());
        } else if a[0] != b[0] && b[0] != c[0] {
            lemma_comp_lt_trans(a[0], b[0], c[0]);
            if a[0] == c[0] {
                lemma_comp_lt_trans(b[0], c[0], b[0]);
            }
        }
    }
}

/// A path sorts before every path strictly below it.
pub proof fn lemma_prefix_comps_lt(a: Seq<Seq<char>>, b: Seq<Seq<char>>)
    requires
        comps_start_with(b, a),
        a.len() < b.len(),
    ensures
        comps_lt(a, b),
    decreases a.len(),
{
    if a.len() > 0 {
        assert(b[0] == b.subrange(0, a.len() as int)[0]);
        assert(comps_start_with(b.drop_first(), a.drop_first())) by {
            assert(b.drop_first().subrange(0, a.drop_first().len() as int) =~= a.drop_first());
        }
        lemma_prefix_comps_lt(a.drop_first(), b.drop_first());
    }
}

impl PathParts {
    /// Whether named component `k` of `self` sorts before named component `j`
    /// of `other` as character sequences.
    fn comp_chars_lt(&self, k: usize, other: &PathParts, j: usize) -> (r: bool)
        requires
            self.wf(),
            other.wf(),
            k < self.ranges@.len(),
            j < other.ranges@.len(),
        ensures
            r == chars_lt(self.comp(k as int), other.comp(j as int)),
    {
        let (a, b) = self.ranges[k];
        let (c, d) = other.ranges[j];
        let ghost x = self.comp(k as int);
        let ghost y = other.comp(j as int);
        let mut i: usize = 0;
        assert(x.skip(0) =~= x);
        assert(y.skip(0) =~= y);
        while i < b - a && i < d - c
            invariant
                self.wf(),
                other.wf(),
                k < self.ranges@.len(),
                j < other.ranges@.len(),
                (a, b) == self.ranges@[k as int],
                (c, d) == other.ranges@[j as int],
                x == self.comp(k as int),
                y == other.comp(j as int),
                a <= b <= self.chars.len(),
                c <= d <= other.chars.len(),
                i <= b - a,
                i <= d - c,
                chars_lt(x, y) == chars_lt(x.skip(i as int), y.skip(i as int)),
            decreases b - a - i,
        {
            let u = self.chars[a + i];
            let w = other.chars[c + i];
            assert(x.skip(i as int)[0] == u);
            assert(y.skip(i as int)[0] == w);
            if u != w {
                return (u as u32) < (w as u32);
            }
            assert(x.skip(i as int).drop_first() =~= x.skip(i + 1));
            assert(y.skip(i as int).drop_first() =~= y.skip(i + 1));
            i += 1;
        }
        (b - a) - i == 0 && (d - c) - i > 0
    }

    /// Whether component `t` of `self` sorts before component `u` of `other`.
    fn comp_lt_at(&self, t: usize, other: &PathParts, u: usize) -> (r: bool)
        requires
            self.wf(),
            other.wf(),
            t < self.comps().len(),
            u < other.comps().len(),
        ensures
            r == comp_lt(self.comps()[t as int], other.comps()[u as int]),
    {
        let ghost x = self.comps()[t as int];
        let ghost y = other.comps()[u as int];
        let rank_x: u8 = if self.rooted && t == 0 {
            0
        } else {
            let k = if self.rooted { t - 1 } else { t };
            assert(x == self.comp(k as int));
            if self.comp_is(k, "..") { 1 } else { 2 }
        };
        let rank_y: u8 = if other.rooted && u == 0 {
            0
        } else {
            let j = if other.rooted { u - 1 } else { u };
            assert(y == other.comp(j as int));
            if other.comp_is(j, "..") { 1 } else { 2 }
        };
        proof {
            reveal_strlit("..");
            if self.rooted && t == 0 {
                assert(x == root_comp());
            } else {
                let k = if self.rooted { t - 1 } else { t as int };
                assert(x == self.comp(k));
                assert(x != root_comp());
            }
            if other.rooted && u == 0 {
                assert(y == root_comp());
            } else {
                let j = if other.rooted { u - 1 } else { u as int };
                assert(y == other.comp(j));
                assert(y != root_comp());
            }
            assert(rank_x as int == comp_rank(x));
            assert(rank_y as int == comp_rank(y));
        }
        if rank_x != rank_y {
            return rank_x < rank_y;
        }
        if rank_x < 2 {
            return false;
        }
        let k = if self.rooted { t - 1 } else { t };
        let j = if other.rooted { u - 1 } else { u };
        self.comp_chars_lt(k, other, j)
    }

    /// Whether `self` sorts before `other` (`Path`'s order).
    pub fn sorts_before(&self, other: &PathParts) -> (r: bool)
        requires
            self.wf(),
            other.wf(),
        ensures
            r == comps_lt(self.comps(), other.comps()),
    {
        let n = self.comps_len();
        let m = other.comps_len();
        let ghost x = self.comps();
        let ghost y = other.comps();
        let mut t: usize = 0;
        assert(x.skip(0) =~= x);
        assert(y.skip(0) =~= y);
        while t < n && t < m
            invariant
                self.wf(),
                other.wf(),
                x == self.comps(),
                y == other.comps(),
                n == x.len(),
                m == y.len(),
                t <= n,
                t <= m,
                comps_lt(x, y) == comps_lt(x.skip(t as int), y.skip(t as int)),
            decreases n - t,
        {
            assert(x.skip(t as int)[0] == x[t as int]);
            assert(y.skip(t as int)[0] == y[t as int]);
            if !self.comp_matches(t, other, t) {
                return self.comp_lt_at(t, other, t);
            }
            assert(x.skip(t as int).drop_first() =~= x.skip(t + 1));
            assert(y.skip(t as int).drop_first() =~= y.skip(t + 1));
            t += 1;
        }
        n - t == 0 && m - t > 0
    }
}


impl PathParts {
    /// The range of the file name's stem within `chars`, when there is one.
    pub fn stem_range(&self) -> (r: Option<(usize, usize)>)
        requires
            self.wf(),
        ensures
            match r {
                None => path_stem(self.comps()).is_none(),
                Some((a, b)) => a <= b <= self.chars@.len() && path_stem(self.comps()) == Some(
                    self.chars@.subrange(a as int, b as int),
                ),
            },
    {
        match self.file_name_range() {
            None => None,
            Some((a, b)) => {
                let ghost name = self.chars@.subrange(a as int, b as int);
                let mut k = b;
                while k > a && self.chars[k - 1] != '.'
                    invariant
                        a <= k <= b <= self.chars@.len(),
                        name == self.chars@.subrange(a as int, b as int),
                        forall|i: int| k - a <= i < name.len() ==> #[trigger] name[i] != '.',
                    decreases k,
                {
                    assert(name[k - 1 - a] == self.chars@[k - 1]);
                    k -= 1;
                }
                proof {
                    if k > a {
                        assert(name[k - 1 - a] == self.chars@[k - 1]);
                        lemma_last_dot_unique(name, k - 1 - a);
                    } else {
                        lemma_last_dot_unique(name, -1);
                    }
                }
                if k - a <= 1 {
                    return Some((a, b));
                }
                assert(name.subrange(0, k - 1 - a) =~= self.chars@.subrange(a as int, k - 1));
                Some((a, k - 1))
            },
        }
    }
}

} // verus!
