//! A small map from paths to time-stamped records, for the authorisation
//! registries. Paths are compared by components, as `PathBuf` keys of a
//! `HashMap` are.
use vstd::prelude::*;
use crate::paths::{PathParts, path_comps};

verus! {

/// Time elapsed since `stamp`, zero when the clock reads earlier
/// (`Instant::elapsed` saturates).
pub open spec fn elapsed(stamp: u64, now: u64) -> int {
    if now >= stamp {
        now - stamp
    } else {
        0
    }
}

/// The records of `m` younger than `ttl` at `now`.
pub open spec fn live_entries<V>(m: Map<Seq<Seq<char>>, (u64, V)>, now: u64, ttl: u64) -> Map<
    Seq<Seq<char>>,
    (u64, V),
> {
    m.restrict(Set::new(|k: Seq<Seq<char>>| m.dom().contains(k) && elapsed(m[k].0, now) < ttl))
}

/// Records by path: each entry is the path as given, when it was stamped, and
/// the record.
pub struct Registry<V> {
    entries: Vec<(String, u64, V)>,
}

impl<V> Registry<V> {
    pub closed spec fn key(&self, a: int) -> Seq<Seq<char>> {
        path_comps(self.entries@[a].0@)
    }

    pub closed spec fn len(&self) -> nat {
        self.entries@.len()
    }

    spec fn has(&self, k: Seq<Seq<char>>) -> bool {
        exists|a: int| 0 <= a < self.entries@.len() && #[trigger] self.key(a) == k
    }

    spec fn index_of(&self, k: Seq<Seq<char>>) -> int {
        choose|a: int| 0 <= a < self.entries@.len() && #[trigger] self.key(a) == k
    }

    /// No two entries are for the same path.
    pub closed spec fn wf(&self) -> bool {
        forall|a: int, b: int|
            0 <= a < b < self.entries@.len() ==> #[trigger] self.key(a) != #[trigger] self.key(b)
    }

    /// The stamped records, by path.
    pub closed spec fn view(&self) -> Map<Seq<Seq<char>>, (u64, V)> {
        Map::new(
            |k: Seq<Seq<char>>| self.has(k),
            |k: Seq<Seq<char>>| (self.entries@[self.index_of(k)].1, self.entries@[self.index_of(k)].2),
        )
    }

    proof fn lemma_index(&self, a: int)
        requires
            self.wf(),
            0 <= a < self.len(),
        ensures
            self.view().dom().contains(self.key(a)),
            self.view()[self.key(a)] == (self.entries@[a].1, self.entries@[a].2),
    {
        let k = self.key(a);
        assert(self.has(k));
        let b = self.index_of(k);
        if b != a {
            if a < b {
                assert(self.key(a) != self.key(b));
            } else {
                assert(self.key(b) != self.key(a));
            }
        }
    }

    /// An empty registry.
    pub fn new() -> (g: Self)
        ensures
            g.wf(),
            g.view() == Map::<Seq<Seq<char>>, (u64, V)>::empty(),
    {
        let g = Registry { entries: Vec::new() };
        assert(g.view() =~= Map::<Seq<Seq<char>>, (u64, V)>::empty());
        g
    }

    /// The index of the entry for the path `p`, if any.
    pub fn find(&self, p: &PathParts) -> (r: Option<usize>)
        requires
            self.wf(),
            p.wf(),
        ensures
            match r {
                Some(a) => a < self.len() && self.key(a as int) == p.comps() && self.view().dom().contains(
                    p.comps(),
                ),
                None => !self.view().dom().contains(p.comps()),
            },
    {
        let mut a: usize = 0;
        while a < self.entries.len()
            invariant
                self.wf(),
                p.wf(),
                a <= self.entries@.len(),
                forall|b: int| 0 <= b < a ==> #[trigger] self.key(b) != p.comps(),
            decreases self.entries@.len() - a,
        {
            let q = PathParts::parse(self.entries[a].0.as_str());
            if q.equals_parts(p) {
                proof {
                    self.lemma_index(a as int);
                }
                return Some(a);
            }
            a += 1;
        }
        None
    }

    /// The stamp of entry `a`.
    pub fn stamp_at(&self, a: usize) -> (t: u64)
        requires
            self.wf(),
            a < self.len(),
        ensures
            t == self.view()[self.key(a as int)].0,
    {
        proof {
            self.lemma_index(a as int);
        }
        self.entries[a].1
    }

    /// The record of entry `a`.
    pub fn record_at(&self, a: usize) -> (v: &V)
        requires
            self.wf(),
            a < self.len(),
        ensures
            *v == self.view()[self.key(a as int)].1,
    {
        proof {
            self.lemma_index(a as int);
        }
        &self.entries[a].2
    }

    /// Drops the records older than `ttl` at `now`.
    pub fn retain_live(&mut self, now: u64, ttl: u64)
        requires
            old(self).wf(),
        ensures
            final(self).wf(),
            final(self).view() == live_entries(old(self).view(), now, ttl),
    {
        let ghost old_self = *self;
        let ghost orig = self.entries@;
        let ghost mut origin: Seq<int> = Seq::empty();
        let mut rest: Vec<(String, u64, V)> = Vec::new();
        std::mem::swap(&mut rest, &mut self.entries);
        let mut kept: Vec<(String, u64, V)> = Vec::new();
        let ghost mut j: int = 0;
        while rest.len() > 0
            invariant
                old_self.entries@ == orig,
                0 <= j <= orig.len(),
                rest@ == orig.subrange(j, orig.len() as int),
                origin.len() == kept@.len(),
                forall|b: int|
                    0 <= b < kept@.len() ==> 0 <= #[trigger] origin[b] < j && kept@[b] == orig[origin[b]]
                        && elapsed(orig[origin[b]].1, now) < ttl,
                forall|b: int, c: int| 0 <= b < c < origin.len() ==> #[trigger] origin[b] < #[trigger] origin[c],
                forall|c: int| 0 <= c < j && elapsed(#[trigger] orig[c].1, now) < ttl ==> origin.contains(c),
            decreases rest@.len(),
        {
            let e = rest.remove(0);
            let ghost before = origin;
            let ghost kept_before = kept@;
            assert(e == orig[j]);
            let age = if e.1 > now { 0 } else { now - e.1 };
            if age < ttl {
                kept.push(e);
                proof {
                    origin = origin.push(j);
                    assert(origin[origin.len() - 1] == j);
                }
            }
            proof {
                assert forall|c: int| 0 <= c < j + 1 && elapsed(#[trigger] orig[c].1, now) < ttl implies origin.contains(c) by {
                    if c < j {
                        let b = choose|b: int| 0 <= b < before.len() && before[b] == c;
                        assert(origin[b] == c);
                    }
                }
                assert forall|b: int| 0 <= b < kept@.len() implies 0 <= #[trigger] origin[b] < j + 1 && kept@[b]
                    == orig[origin[b]] && elapsed(orig[origin[b]].1, now) < ttl by {
                    if b < kept_before.len() {
                        assert(kept@[b] == kept_before[b]);
                        assert(origin[b] == before[b]);
                    }
                }
                j = j + 1;
                assert(rest@ =~= orig.subrange(j, orig.len() as int));
            }
        }
        self.entries = kept;
        proof {
            assert(j == orig.len());
            let m = old_self.view();
            let live = live_entries(m, now, ttl);
            assert forall|b: int| 0 <= b < self.entries@.len() implies #[trigger] self.key(b) == old_self.key(origin[b]) by {}
            assert forall|b: int, c: int| 0 <= b < c < self.entries@.len() implies #[trigger] self.key(b)
                != #[trigger] self.key(c) by {
                assert(self.key(b) == old_self.key(origin[b]));
                assert(self.key(c) == old_self.key(origin[c]));
                assert(origin[b] < origin[c]);
            }
            assert forall|k: Seq<Seq<char>>| #[trigger] self.view().dom().contains(k) == live.dom().contains(k) by {
                if self.view().dom().contains(k) {
                    let b = choose|b: int| 0 <= b < self.entries@.len() && #[trigger] self.key(b) == k;
                    assert(self.key(b) == old_self.key(origin[b]));
                    old_self.lemma_index(origin[b]);
                }
                if live.dom().contains(k) {
                    let c = old_self.index_of(k);
                    assert(old_self.key(c) == k);
                    assert(origin.contains(c));
                    let b = choose|b: int| 0 <= b < origin.len() && origin[b] == c;
                    assert(self.key(b) == old_self.key(origin[b]));
                }
            }
            assert forall|k: Seq<Seq<char>>| #[trigger] self.view().dom().contains(k) implies self.view()[k]
                == live[k] by {
                let b = self.index_of(k);
                self.lemma_index(b);
                assert(self.key(b) == old_self.key(origin[b]));
                old_self.lemma_index(origin[b]);
            }
            assert(self.view() =~= live);
        }
    }

    /// Replaces the stamp and record of entry `a`.
    pub fn replace_at(&mut self, a: usize, stamp: u64, v: V)
        requires
            old(self).wf(),
            a < old(self).len(),
        ensures
            final(self).wf(),
            final(self).view() == old(self).view().insert(old(self).key(a as int), (stamp, v)),
    {
        let ghost before = *self;
        let s = self.entries[a].0.clone();
        self.entries.set(a, (s, stamp, v));
        proof {
            assert forall|b: int| 0 <= b < self.entries@.len() implies #[trigger] self.key(b) == before.key(b) by {}
            let k0 = before.key(a as int);
            let target = before.view().insert(k0, (stamp, v));
            assert forall|k: Seq<Seq<char>>| #[trigger] self.view().dom().contains(k) == target.dom().contains(k) by {
                if self.view().dom().contains(k) {
                    let b = choose|b: int| 0 <= b < self.entries@.len() && #[trigger] self.key(b) == k;
                    assert(before.key(b) == k);
                }
                if before.view().dom().contains(k) {
                    let b = choose|b: int| 0 <= b < before.entries@.len() && #[trigger] before.key(b) == k;
                    assert(self.key(b) == k);
                }
                assert(self.key(a as int) == k0);
            }
            assert forall|k: Seq<Seq<char>>| #[trigger] self.view().dom().contains(k) implies self.view()[k]
                == target[k] by {
                let b = self.index_of(k);
                self.lemma_index(b);
                if b != a {
                    before.lemma_index(b);
                    assert(before.key(b) == k);
                    assert(before.key(b) != before.key(a as int)) by {
                        if b < a {
                        } else {
                        }
                    }
                }
            }
            assert(self.view() =~= target);
        }
    }

    /// Adds a record for a path that has none.
    pub fn push_new(&mut self, path: String, stamp: u64, v: V)
        requires
            old(self).wf(),
            !old(self).view().dom().contains(path_comps(path@)),
        ensures
            final(self).wf(),
            final(self).view() == old(self).view().insert(path_comps(path@), (stamp, v)),
    {
        let ghost before = *self;
        let ghost k0 = path_comps(path@);
        self.entries.push((path, stamp, v));
        proof {
            let n = before.entries@.len() as int;
            assert(self.key(n) == k0);
            assert forall|b: int| 0 <= b < n implies #[trigger] self.key(b) == before.key(b) by {}
            assert forall|b: int, c: int| 0 <= b < c < self.entries@.len() implies #[trigger] self.key(b)
                != #[trigger] self.key(c) by {
                if c == n {
                    before.lemma_index(b);
                } else {
                    assert(self.key(b) == before.key(b));
                    assert(self.key(c) == before.key(c));
                }
            }
            let target = before.view().insert(k0, (stamp, v));
            assert forall|k: Seq<Seq<char>>| #[trigger] self.view().dom().contains(k) == target.dom().contains(k) by {
                if self.view().dom().contains(k) {
                    let b = choose|b: int| 0 <= b < self.entries@.len() && #[trigger] self.key(b) == k;
                    if b < n {
                        assert(before.key(b) == k);
                    }
                }
                if before.view().dom().contains(k) {
                    let b = choose|b: int| 0 <= b < before.entries@.len() && #[trigger] before.key(b) == k;
                    assert(self.key(b) == k);
                }
            }
            assert forall|k: Seq<Seq<char>>| #[trigger] self.view().dom().contains(k) implies self.view()[k]
                == target[k] by {
                let b = self.index_of(k);
                self.lemma_index(b);
                if b < n {
                    before.lemma_index(b);
                    assert(before.key(b) == k);
                }
            }
            assert(self.view() =~= target);
        }
    }

    /// Takes entry `a` out, returning its record.
    pub fn remove_at(&mut self, a: usize) -> (v: V)
        requires
            old(self).wf(),
            a < old(self).len(),
        ensures
            final(self).wf(),
            final(self).view() == old(self).view().remove(old(self).key(a as int)),
            v == old(self).view()[old(self).key(a as int)].1,
    {
        let ghost before = *self;
        proof {
            before.lemma_index(a as int);
        }
        let e = self.entries.remove(a);
        proof {
            let k0 = before.key(a as int);
            assert forall|b: int| 0 <= b < self.entries@.len() implies #[trigger] self.key(b) == before.key(
                if b < a { b } else { b + 1 },
            ) by {}
            assert forall|b: int, c: int| 0 <= b < c < self.entries@.len() implies #[trigger] self.key(b)
                != #[trigger] self.key(c) by {
                let b2 = if b < a { b } else { b + 1 };
                let c2 = if c < a { c } else { c + 1 };
                assert(self.key(b) == before.key(b2));
                assert(self.key(c) == before.key(c2));
            }
            let target = before.view().remove(k0);
            assert forall|k: Seq<Seq<char>>| #[trigger] self.view().dom().contains(k) == target.dom().contains(k) by {
                if self.view().dom().contains(k) {
                    let b = choose|b: int| 0 <= b < self.entries@.len() && #[trigger] self.key(b) == k;
                    let b2 = if b < a { b } else { b + 1 };
                    assert(before.key(b2) == k);
                    assert(before.key(b2) != k0) by {
                        if b2 < a {
                        } else {
                        }
                    }
                }
                if target.dom().contains(k) {
                    let c = choose|c: int| 0 <= c < before.entries@.len() && #[trigger] before.key(c) == k;
                    assert(c != a);
                    let b = if c < a { c } else { c - 1 };
                    assert(self.key(b) == k);
                }
            }
            assert forall|k: Seq<Seq<char>>| #[trigger] self.view().dom().contains(k) implies self.view()[k]
                == target[k] by {
                let b = self.index_of(k);
                self.lemma_index(b);
                let b2 = if b < a { b } else { b + 1 };
                before.lemma_index(b2);
                assert(before.key(b2) == k);
            }
            assert(self.view() =~= target);
        }
        e.2
    }
}

} // verus!
