//! The bookkeeping of the approximate (HNSW) vector index that the graph
//! itself does not keep: the graph has no deletion, so a removed chunk is
//! tombstoned and filtered out of results, and the count of live vectors is
//! kept beside it. The graph and its float distances live with the caller.

use vstd::prelude::*;

use crate::id::ChunkId;
use crate::idset::IdSet;

verus! {

/// Whether a neighbour the graph returns may be reported: it is not
/// tombstoned, and it is among the allowed ids when a restriction is given.
pub open spec fn admits(id: u64, tombstones: Set<u64>, allowed: Option<Set<u64>>) -> bool {
    &&& !tombstones.contains(id)
    &&& match allowed {
        Some(a) => a.contains(id),
        None => true,
    }
}

/// The positions of `ids` (the graph's neighbours, nearest first) that are
/// reported: the first `k` admitted ones, in order.
pub open spec fn kept(ids: Seq<u64>, tombstones: Set<u64>, allowed: Option<Set<u64>>, k: int) -> Seq<usize>
    decreases ids.len(),
{
    if ids.len() == 0 {
        Seq::empty()
    } else {
        let r = kept(ids.drop_last(), tombstones, allowed, k);
        if r.len() < k && admits(ids.last(), tombstones, allowed) {
            r.push((ids.len() - 1) as usize)
        } else {
            r
        }
    }
}

/// The bookkeeping after removing `id`: it is tombstoned, and a first removal
/// lowers the live count (never below zero) while a repeated one leaves it.
pub open spec fn removal(tombstones: Set<u64>, live: int, id: u64) -> (Set<u64>, int) {
    (tombstones.insert(id), if tombstones.contains(id) || live == 0 { live } else { live - 1 })
}

/// The allowed ids of an optional restriction, by view.
pub open spec fn allowed_view(allowed: Option<&IdSet>) -> Option<Set<u64>> {
    match allowed {
        Some(a) => Some(a@),
        None => None,
    }
}

/// `k.saturating_mul(4)`.
pub open spec fn times4_sat(k: usize) -> int {
    if 4 * k <= usize::MAX { 4 * k } else { usize::MAX as int }
}

/// How many neighbours to ask the graph for (`want`: four per wanted result
/// plus one per tombstone, within `[1, total]`) and the search breadth (`ef`:
/// `want`, at least 64).
pub open spec fn fetch_spec(k: usize, tombstones: nat, total: usize) -> (int, int) {
    let raw = times4_sat(k) + tombstones;
    let want = if raw < 1 { 1 } else if raw > total { total as int } else { raw };
    (want, if want >= 64 { want } else { 64 })
}

/// The tombstones and live count of an HNSW index of dimension `dim`.
pub struct HnswBook {
    dim: usize,
    tombstones: IdSet,
    live: usize,
}

impl HnswBook {
    /// The tombstone set is well formed.
    pub closed spec fn wf(&self) -> bool {
        self.tombstones.wf()
    }

    /// The dimension of the indexed vectors.
    pub closed spec fn spec_dim(&self) -> usize {
        self.dim
    }

    /// The removed chunk ids that the graph still holds.
    pub closed spec fn spec_tombstones(&self) -> Set<u64> {
        self.tombstones@
    }

    /// The count of live vectors.
    pub closed spec fn spec_live(&self) -> usize {
        self.live
    }

    /// No vector yet.
    pub fn new(dim: usize) -> (r: Self)
        ensures
            r.wf(),
            r.spec_dim() == dim,
            r.spec_tombstones() == Set::<u64>::empty(),
            r.spec_live() == 0,
    {
        HnswBook { dim, tombstones: IdSet::new(), live: 0 }
    }

    /// The bookkeeping saved beside a graph: its dimension, live count and
    /// tombstones.
    pub fn from_parts(dim: usize, live: usize, tombstones: &[u64]) -> (r: Self)
        ensures
            r.wf(),
            r.spec_dim() == dim,
            r.spec_tombstones() == tombstones@.to_set(),
            r.spec_live() == live,
    {
        HnswBook { dim, tombstones: IdSet::from_slice(tombstones), live }
    }

    pub fn dim(&self) -> (r: usize)
        ensures r == self.spec_dim(),
    {
        self.dim
    }

    /// The count of live vectors.
    pub fn len(&self) -> (r: usize)
        ensures r == self.spec_live(),
    {
        self.live
    }

    /// How many tombstones there are.
    pub fn tombstone_count(&self) -> (r: usize)
        requires self.wf(),
        ensures r == self.spec_tombstones().len(),
    {
        self.tombstones.len()
    }

    /// The tombstones, each once (for saving beside the graph).
    pub fn tombstone_ids(&self) -> (r: Vec<u64>)
        requires self.wf(),
        ensures
            r@.no_duplicates(),
            r@.to_set() == self.spec_tombstones(),
    {
        self.tombstones.to_vec()
    }

    /// Record that the vector of `id` went into the graph: `id` is live again
    /// (no longer tombstoned) and the live count goes up by one.
    pub fn record_insert(&mut self, id: ChunkId)
        requires
            old(self).wf(),
            old(self).spec_live() < usize::MAX,
        ensures
            final(self).wf(),
            final(self).spec_dim() == old(self).spec_dim(),
            final(self).spec_tombstones() == old(self).spec_tombstones().remove(id.0),
            final(self).spec_live() == old(self).spec_live() + 1,
    {
        self.tombstones.remove(id.0);
        self.live = self.live + 1;
    }

    /// Record that `id` was removed (see `removal`).
    pub fn record_remove(&mut self, id: ChunkId)
        requires old(self).wf(),
        ensures
            final(self).wf(),
            final(self).spec_dim() == old(self).spec_dim(),
            (final(self).spec_tombstones(), final(self).spec_live() as int)
                == removal(old(self).spec_tombstones(), old(self).spec_live() as int, id.0),
    {
        if !self.tombstones.contains(id.0) {
            self.tombstones.insert(id.0);
            if self.live > 0 {
                self.live = self.live - 1;
            }
        } else {
            assert(self.tombstones@.insert(id.0) =~= self.tombstones@);
        }
    }

    /// How many neighbours to fetch for `k` results out of `total` points, and
    /// the search breadth (see `fetch_spec`).
    pub fn fetch_sizes(&self, k: usize, total: usize) -> (r: (usize, usize))
        requires
            self.wf(),
            times4_sat(k) + self.spec_tombstones().len() <= usize::MAX,
        ensures
            (r.0 as int, r.1 as int) == fetch_spec(k, self.spec_tombstones().len(), total),
    {
        let k4 = if k <= usize::MAX / 4 { k * 4 } else { usize::MAX };
        let raw = k4 + self.tombstones.len();
        let want = if raw < 1 { 1 } else if raw > total { total } else { raw };
        (want, if want >= 64 { want } else { 64 })
    }

    /// The positions of the graph's neighbours `ids` to report: the first `k`
    /// admitted ones, in order (see `kept`).
    pub fn admitted(&self, ids: &[u64], k: usize, allowed: Option<&IdSet>) -> (r: Vec<usize>)
        ensures
            r@ == kept(ids@, self.spec_tombstones(), allowed_view(allowed), k as int),
    {
        let ghost t = self.spec_tombstones();
        let ghost a = allowed_view(allowed);
        let mut out: Vec<usize> = Vec::new();
        let mut i: usize = 0;
        while i < ids.len() && out.len() < k
            invariant
                i <= ids@.len(),
                t == self.spec_tombstones(),
                a == allowed_view(allowed),
                out@ == kept(ids@.take(i as int), t, a, k as int),
            decreases ids.len() - i,
        {
            let id = ids[i];
            let ok = !self.tombstones.contains(id) && match allowed {
                Some(set) => set.contains(id),
                None => true,
            };
            proof {
                let next = ids@.take(i as int + 1);
                assert(next.drop_last() =~= ids@.take(i as int));
                assert(next.last() == id);
            }
            if ok {
                out.push(i);
            }
            i = i + 1;
        }
        proof {
            lemma_kept_full(ids@, t, a, k as int, i as int);
        }
        out
    }
}

/// Once `k` positions are kept, the rest of the neighbours add none.
proof fn lemma_kept_full(ids: Seq<u64>, t: Set<u64>, a: Option<Set<u64>>, k: int, i: int)
    requires
        0 <= i <= ids.len(),
        i == ids.len() || kept(ids.take(i), t, a, k).len() >= k,
    ensures
        kept(ids, t, a, k) == kept(ids.take(i), t, a, k),
    decreases ids.len() - i,
{
    if i == ids.len() {
        assert(ids.take(i) =~= ids);
    } else {
        let next = ids.take(i + 1);
        assert(next.drop_last() =~= ids.take(i));
        assert(kept(next, t, a, k) == kept(ids.take(i), t, a, k));
        lemma_kept_full(ids, t, a, k, i + 1);
    }
}

/// A reported neighbour is never a tombstoned chunk, and is allowed when a
/// restriction is given; at most `k` are reported, in the graph's order.
pub proof fn lemma_kept_admitted(ids: Seq<u64>, t: Set<u64>, a: Option<Set<u64>>, k: int)
    requires
        0 <= k,
        ids.len() <= usize::MAX,
    ensures
        kept(ids, t, a, k).len() <= k,
        forall|j: int|
            0 <= j < kept(ids, t, a, k).len() ==> {
                &&& (#[trigger] kept(ids, t, a, k)[j]) < ids.len()
                &&& admits(ids[kept(ids, t, a, k)[j] as int], t, a)
            },
        forall|j1: int, j2: int|
            0 <= j1 < j2 < kept(ids, t, a, k).len() ==> #[trigger] kept(ids, t, a, k)[j1] < #[trigger] kept(ids, t, a, k)[j2],
    decreases ids.len(),
{
    if ids.len() > 0 {
        let rest = ids.drop_last();
        lemma_kept_admitted(rest, t, a, k);
        let r = kept(rest, t, a, k);
        assert forall|j: int| 0 <= j < r.len() implies admits(ids[r[j] as int], t, a) by {
            assert(ids[r[j] as int] == rest[r[j] as int]);
        }
    }
}

/// Removing a chunk twice leaves the bookkeeping as removing it once.
pub proof fn lemma_remove_idempotent(tombstones: Set<u64>, live: int, id: u64)
    ensures
        ({
            let once = removal(tombstones, live, id);
            removal(once.0, once.1, id) == once
        }),
{
    assert(tombstones.insert(id).insert(id) =~= tombstones.insert(id));
}

} // verus!
