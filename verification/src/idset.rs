//! Sets of raw chunk ids with the set algebra the search filters need
//! (intersection, union, difference), kept both as a hash set for lookups and
//! as a list for iteration.

use std::collections::HashSet;

use vstd::prelude::*;

verus! {

broadcast use vstd::std_specs::hash::group_hash_axioms;

/// A finite set of raw chunk ids.
pub struct IdSet {
    items: Vec<u64>,
    index: HashSet<u64>,
}

impl View for IdSet {
    type V = Set<u64>;

    closed spec fn view(&self) -> Set<u64> {
        self.index@
    }
}

impl IdSet {
    /// The list and the hash set hold the same ids, each once.
    pub closed spec fn wf(&self) -> bool {
        &&& self.items@.no_duplicates()
        &&& self.items@.to_set() == self.index@
    }

    /// The empty set.
    pub fn new() -> (r: Self)
        ensures
            r.wf(),
            r@ == Set::<u64>::empty(),
    {
        let r = IdSet { items: Vec::new(), index: HashSet::new() };
        assert(r.items@.to_set() =~= Set::<u64>::empty());
        r
    }

    /// Whether `k` is in the set.
    pub fn contains(&self, k: u64) -> (r: bool)
        ensures r == self@.contains(k),
    {
        self.index.contains(&k)
    }

    /// Add `k` (no-op when present).
    pub fn insert(&mut self, k: u64)
        requires old(self).wf(),
        ensures
            final(self).wf(),
            final(self)@ == old(self)@.insert(k),
    {
        if !self.index.contains(&k) {
            let ghost old_items = self.items@;
            self.items.push(k);
            self.index.insert(k);
            proof {
                assert(!old_items.contains(k));
                assert(self.items@ =~= old_items.push(k));
                assert forall|i: int, j: int| 0 <= i < j < self.items@.len() implies self.items@[i] != self.items@[j] by {
                    if j == old_items.len() {
                        assert(old_items.contains(old_items[i]));
                    }
                }
                assert(self.items@.to_set() =~= old_items.to_set().insert(k)) by {
                    assert forall|x: u64| self.items@.to_set().contains(x) <==> old_items.to_set().insert(k).contains(x) by {
                        if self.items@.contains(x) && x != k {
                            let w = choose|w: int| 0 <= w < self.items@.len() && self.items@[w] == x;
                            assert(old_items[w] == x);
                        }
                        if old_items.contains(x) {
                            let w = choose|w: int| 0 <= w < old_items.len() && old_items[w] == x;
                            assert(self.items@[w] == x);
                        }
                        if x == k {
                            assert(self.items@[old_items.len() as int] == k);
                        }
                    }
                }
            }
        }
    }

    /// Drop `k` (no-op when absent); the other ids keep their order.
    pub fn remove(&mut self, k: u64)
        requires old(self).wf(),
        ensures
            final(self).wf(),
            final(self)@ == old(self)@.remove(k),
    {
        if self.index.contains(&k) {
            let ghost old_items = self.items@;
            assert(old_items.to_set().contains(k));
            assert(old_items.contains(k));
            let mut i: usize = 0;
            while self.items[i] != k
                invariant
                    self.items@ == old_items,
                    self.items.len() == old_items.len(),
                    old_items.contains(k),
                    i < old_items.len(),
                    forall|j: int| 0 <= j < i ==> old_items[j] != k,
                decreases old_items.len() - i,
            {
                i = i + 1;
                if i >= self.items.len() {
                    proof {
                        let w = choose|w: int| 0 <= w < old_items.len() && old_items[w] == k;
                        assert(old_items[w] != k);
                    }
                }
            }
            self.items.remove(i);
            self.index.remove(&k);
            proof {
                let new_items = self.items@;
                assert(new_items =~= old_items.remove(i as int));
                assert forall|a: int, b: int| 0 <= a < b < new_items.len() implies new_items[a] != new_items[b] by {
                    let oa = if a < i { a } else { a + 1 };
                    let ob = if b < i { b } else { b + 1 };
                    assert(new_items[a] == old_items[oa]);
                    assert(new_items[b] == old_items[ob]);
                }
                assert forall|x: u64| new_items.to_set().contains(x) <==> old_items.to_set().remove(k).contains(x) by {
                    if new_items.contains(x) {
                        let w = choose|w: int| 0 <= w < new_items.len() && new_items[w] == x;
                        let ow = if w < i { w } else { w + 1 };
                        assert(old_items[ow] == x);
                        assert(ow != i);
                        assert(old_items[i as int] == k);
                    }
                    if old_items.contains(x) && x != k {
                        let w = choose|w: int| 0 <= w < old_items.len() && old_items[w] == x;
                        assert(w != i);
                        let nw = if w < i { w } else { w - 1 };
                        assert(new_items[nw] == x);
                    }
                }
                assert(new_items.to_set() =~= old_items.to_set().remove(k));
            }
        }
    }

    /// Number of ids.
    pub fn len(&self) -> (r: usize)
        requires self.wf(),
        ensures r == self@.len(),
    {
        proof { self.items@.unique_seq_to_set(); }
        self.items.len()
    }

    /// The set of the ids listed in `ids`.
    pub fn from_slice(ids: &[u64]) -> (r: Self)
        ensures
            r.wf(),
            r@ == ids@.to_set(),
    {
        let mut r = IdSet::new();
        let mut i: usize = 0;
        while i < ids.len()
            invariant
                i <= ids@.len(),
                r.wf(),
                r@ == ids@.take(i as int).to_set(),
            decreases ids.len() - i,
        {
            r.insert(ids[i]);
            proof {
                assert(ids@.take(i + 1) =~= ids@.take(i as int).push(ids@[i as int]));
                ids@.take(i as int).lemma_push_to_set_commute(ids@[i as int]);
            }
            i = i + 1;
        }
        assert(ids@.take(ids@.len() as int) =~= ids@);
        r
    }

    /// The ids, each once.
    pub fn to_vec(&self) -> (r: Vec<u64>)
        requires self.wf(),
        ensures
            r@.no_duplicates(),
            r@.to_set() == self@,
    {
        let mut out: Vec<u64> = Vec::new();
        let mut i: usize = 0;
        while i < self.items.len()
            invariant
                i <= self.items@.len(),
                out@ == self.items@.take(i as int),
            decreases self.items.len() - i,
        {
            out.push(self.items[i]);
            i = i + 1;
            assert(out@ =~= self.items@.take(i as int));
        }
        assert(self.items@.take(self.items@.len() as int) =~= self.items@);
        out
    }

    /// The ids of this set kept by `keep_if_in == other.contains(..)`:
    /// the intersection when `keep_if_in`, the difference otherwise.
    fn filter_by(&self, other: &IdSet, keep_if_in: bool) -> (r: IdSet)
        requires self.wf(),
        ensures
            r.wf(),
            r@ == self@.filter(|k: u64| other@.contains(k) == keep_if_in),
    {
        let mut r = IdSet::new();
        let mut i: usize = 0;
        while i < self.items.len()
            invariant
                i <= self.items@.len(),
                self.wf(),
                r.wf(),
                r@ == self.items@.take(i as int).to_set().filter(|k: u64| other@.contains(k) == keep_if_in),
            decreases self.items.len() - i,
        {
            let k = self.items[i];
            let ghost before = self.items@.take(i as int);
            if other.contains(k) == keep_if_in {
                r.insert(k);
            }
            proof {
                assert(self.items@.take(i + 1) =~= before.push(k));
                before.lemma_push_to_set_commute(k);
                assert(r@ =~= before.push(k).to_set().filter(|k: u64| other@.contains(k) == keep_if_in));
            }
            i = i + 1;
        }
        assert(self.items@.take(self.items@.len() as int) =~= self.items@);
        r
    }

    /// `self ∩ other`.
    pub fn intersect(&self, other: &IdSet) -> (r: IdSet)
        requires self.wf(),
        ensures
            r.wf(),
            r@ == self@.intersect(other@),
    {
        let r = self.filter_by(other, true);
        assert(r@ =~= self@.intersect(other@));
        r
    }

    /// `self ∖ other`.
    pub fn minus(&self, other: &IdSet) -> (r: IdSet)
        requires self.wf(),
        ensures
            r.wf(),
            r@ == self@.difference(other@),
    {
        let r = self.filter_by(other, false);
        assert(r@ =~= self@.difference(other@));
        r
    }

    /// `self ∪ other`.
    pub fn union(&self, other: &IdSet) -> (r: IdSet)
        requires
            self.wf(),
            other.wf(),
        ensures
            r.wf(),
            r@ == self@.union(other@),
    {
        let mut r = self.filter_by(self, true);
        assert(r@ =~= self@);
        let mut i: usize = 0;
        while i < other.items.len()
            invariant
                i <= other.items@.len(),
                other.wf(),
                r.wf(),
                r@ == self@.union(other.items@.take(i as int).to_set()),
            decreases other.items.len() - i,
        {
            let k = other.items[i];
            let ghost before = other.items@.take(i as int);
            r.insert(k);
            proof {
                assert(other.items@.take(i + 1) =~= before.push(k));
                before.lemma_push_to_set_commute(k);
                assert(r@ =~= self@.union(before.push(k).to_set()));
            }
            i = i + 1;
        }
        assert(other.items@.take(other.items@.len() as int) =~= other.items@);
        r
    }
}

} // verus!
