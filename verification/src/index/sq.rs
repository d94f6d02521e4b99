//! Exact-recall brute-force vector index with scalar-quantised storage: the
//! bookkeeping of rows, ids and positions. Each vector is kept as `dim`
//! `i8` codes in one flat row-major buffer; removal swaps the last row into
//! the hole so the buffer stays dense.

use std::collections::HashMap;

use vstd::prelude::*;

use crate::error::NucleusError;
use crate::id::ChunkId;

verus! {

broadcast use vstd::std_specs::hash::group_hash_axioms;

proof fn lemma_row_bounds(i: int, n: int, d: int)
    by (nonlinear_arith)
    requires
        0 <= i < n,
        0 <= d,
    ensures
        0 <= i * d,
        (i + 1) * d == i * d + d,
        (i + 1) * d <= n * d,
        n * d == (n - 1) * d + d,
{
}

/// Brute-force cosine index over `i8` codes.
pub struct SqFlatIndex {
    dim: usize,
    ids: Vec<ChunkId>,
    /// Flattened row-major codes: `codes[row*dim .. row*dim+dim]` is one vector.
    codes: Vec<i8>,
    /// Raw chunk id -> row.
    pos: HashMap<u64, usize>,
}

impl SqFlatIndex {
    /// The dimension every stored vector has.
    pub closed spec fn spec_dim(&self) -> nat {
        self.dim as nat
    }

    /// The chunks in row order.
    pub closed spec fn spec_ids(&self) -> Seq<ChunkId> {
        self.ids@
    }

    /// The codes of row `i`.
    pub closed spec fn spec_row(&self, i: int) -> Seq<i8> {
        self.codes@.subrange(i * self.dim, (i + 1) * self.dim)
    }

    /// The stored codes of every indexed chunk, by raw chunk id.
    pub closed spec fn spec_vectors(&self) -> Map<u64, Seq<i8>> {
        Map::new(|k: u64| self.pos@.contains_key(k), |k: u64| self.spec_row(self.pos@[k] as int))
    }

    /// Rows and positions agree: the buffer holds one row per id, and the
    /// position map sends each id to its row and nothing else.
    pub closed spec fn wf(&self) -> bool {
        &&& self.codes@.len() == self.ids@.len() * self.dim
        &&& forall|i: int| 0 <= i < self.ids@.len() ==> #[trigger] self.pos@.contains_key(self.ids@[i].0)
            && self.pos@[self.ids@[i].0] == i
        &&& forall|k: u64| #[trigger] self.pos@.contains_key(k) ==> self.pos@[k] < self.ids@.len()
            && self.ids@[self.pos@[k] as int].0 == k
    }

    /// An empty index for vectors of `dim` components.
    pub fn new(dim: usize) -> (r: Self)
        ensures
            r.wf(),
            r.spec_dim() == dim,
            r.spec_ids() == Seq::<ChunkId>::empty(),
            r.spec_vectors() == Map::<u64, Seq<i8>>::empty(),
    {
        let r = SqFlatIndex { dim, ids: Vec::new(), codes: Vec::new(), pos: HashMap::new() };
        assert(r.spec_vectors() =~= Map::<u64, Seq<i8>>::empty());
        r
    }

    /// The dimension every vector in this index must have.
    pub fn dim(&self) -> (r: usize)
        ensures r == self.spec_dim(),
    {
        self.dim
    }

    /// Number of vectors currently indexed.
    pub fn len(&self) -> (r: usize)
        requires self.wf(),
        ensures
            r == self.spec_ids().len(),
            r == self.spec_vectors().len(),
    {
        proof { self.lemma_len(); }
        self.ids.len()
    }

    /// Whether the index holds no vectors.
    pub fn is_empty(&self) -> (r: bool)
        requires self.wf(),
        ensures r == (self.spec_vectors().len() == 0),
    {
        self.len() == 0
    }

    /// The chunk stored in row `i`.
    pub fn id_at(&self, i: usize) -> (r: ChunkId)
        requires i < self.spec_ids().len(),
        ensures r == self.spec_ids()[i as int],
    {
        self.ids[i]
    }

    /// The codes of row `i`.
    pub fn row(&self, i: usize) -> (r: &[i8])
        requires
            self.wf(),
            i < self.spec_ids().len(),
        ensures
            r@ == self.spec_row(i as int),
            r@.len() == self.spec_dim(),
    {
        proof {
            lemma_row_bounds(i as int, self.ids@.len() as int, self.dim as int);
            assert(self.codes@.len() == self.codes.len());
            assert(self.ids@.len() == self.ids.len());
            assert((i + 1) * self.dim <= self.codes@.len());
        }
        vstd::slice::slice_subrange(self.codes.as_slice(), i * self.dim, (i + 1) * self.dim)
    }

    /// Each row index holds exactly one chunk, so the map has one entry per row.
    proof fn lemma_len(&self)
        requires self.wf(),
        ensures self.spec_vectors().len() == self.ids@.len(),
    {
        let keys = self.pos@.dom();
        let rows = Set::new(|i: int| 0 <= i < self.ids@.len());
        let f = |k: u64| self.pos@[k] as int;
        assert(self.spec_vectors().dom() =~= keys);
        assert(vstd::relations::injective_on(f, keys)) by {
            assert forall|a: u64, b: u64| keys.contains(a) && keys.contains(b) && #[trigger] f(a) == #[trigger] f(b)
                implies a == b by {
                assert(self.ids@[self.pos@[a] as int].0 == a);
                assert(self.ids@[self.pos@[b] as int].0 == b);
            }
        }
        assert(keys.map(f) =~= rows) by {
            assert forall|i: int| rows.contains(i) implies #[trigger] keys.map(f).contains(i) by {
                let k = self.ids@[i].0;
                assert(self.pos@.contains_key(k));
                assert(keys.contains(k) && f(k) == i);
            }
        }
        vstd::set_lib::lemma_int_range(0, self.ids@.len() as int);
        assert(rows =~= vstd::set_lib::set_int_range(0, self.ids@.len() as int));
        vstd::set_lib::lemma_map_size(keys, rows, f);
    }

    /// Insert or replace the codes for `id`. Fails with `DimensionMismatch`,
    /// leaving the index unchanged, when `q` does not have `dim` codes. A new
    /// chunk gets the next row; a known one keeps its row.
    pub fn upsert(&mut self, id: ChunkId, q: &[i8]) -> (r: Result<(), NucleusError>)
        requires old(self).wf(),
        ensures
            final(self).wf(),
            final(self).spec_dim() == old(self).spec_dim(),
            q@.len() != old(self).spec_dim() ==> r == Err::<(), NucleusError>(
                NucleusError::DimensionMismatch { expected: old(self).spec_dim() as usize, got: q@.len() as usize },
            ) && final(self).spec_vectors() == old(self).spec_vectors()
                && final(self).spec_ids() == old(self).spec_ids(),
            q@.len() == old(self).spec_dim() ==> r is Ok
                && final(self).spec_vectors() == old(self).spec_vectors().insert(id.0, q@)
                && final(self).spec_ids() == if old(self).spec_vectors().contains_key(id.0) {
                    old(self).spec_ids()
                } else {
                    old(self).spec_ids().push(id)
                },
    {
        if q.len() != self.dim {
            return Err(NucleusError::DimensionMismatch { expected: self.dim, got: q.len() });
        }
        let ghost old_ids = self.ids@;
        let ghost old_codes = self.codes@;
        let ghost old_pos = self.pos@;
        let ghost n = self.ids@.len() as int;
        let d = self.dim;
        match self.pos.get(&id.0) {
            Some(ip) => {
                let i = *ip;
                proof {
                    lemma_row_bounds(i as int, n, d as int);
                    assert(self.codes@.len() == self.codes.len());
                }
                let base = i * d;
                let mut j: usize = 0;
                while j < d
                    invariant
                        j <= d,
                        d == self.dim,
                        q@.len() == d,
                        base == i * d,
                        i < n,
                        (i + 1) * d <= n * d,
                        (i + 1) * d == i * d + d,
                        self.codes@.len() == old_codes.len(),
                        old_codes.len() == n * d,
                        old_codes.len() <= usize::MAX,
                        forall|x: int| 0 <= x < self.codes@.len() ==> #[trigger] self.codes@[x] == if base <= x < base + j {
                            q@[x - base]
                        } else {
                            old_codes[x]
                        },
                        self.ids@ == old_ids,
                        self.pos@ == old_pos,
                    decreases d - j,
                {
                    self.codes.set(base + j, q[j]);
                    j = j + 1;
                }
                proof {
                    assert forall|k: u64| #[trigger] self.spec_vectors().contains_key(k) implies self.spec_vectors()[k]
                        == old(self).spec_vectors().insert(id.0, q@)[k] by {
                        let r = self.pos@[k] as int;
                        lemma_row_bounds(r, n, d as int);
                        if k == id.0 {
                            assert(self.spec_row(r) =~= q@);
                        } else {
                            assert(r != i) by {
                                assert(self.ids@[r].0 == k);
                                assert(self.ids@[i as int].0 == id.0);
                            }
                            if r < i {
                                lemma_row_bounds(r, i as int, d as int);
                            } else {
                                lemma_row_bounds(i as int, r, d as int);
                            }
                            assert(self.spec_row(r) =~= old(self).spec_row(r));
                        }
                    }
                    assert(self.spec_vectors() =~= old(self).spec_vectors().insert(id.0, q@));
                }
            },
            None => {
                let i = self.ids.len();
                proof {
                    assert(self.codes@.len() == n * d);
                }
                self.ids.push(id);
                let mut j: usize = 0;
                while j < d
                    invariant
                        j <= d,
                        d == self.dim,
                        q@.len() == d,
                        self.codes@.len() == old_codes.len() + j,
                        old_codes.len() == n * d,
                        forall|x: int| 0 <= x < self.codes@.len() ==> #[trigger] self.codes@[x] == if x < old_codes.len() {
                            old_codes[x]
                        } else {
                            q@[x - old_codes.len()]
                        },
                        self.ids@ == old_ids.push(id),
                        self.pos@ == old_pos,
                    decreases d - j,
                {
                    self.codes.push(q[j]);
                    j = j + 1;
                }
                self.pos.insert(id.0, i);
                proof {
                    lemma_row_bounds(n, n + 1, d as int);
                    assert(self.codes@.len() == (n + 1) * d);
                    assert forall|x: int| 0 <= x < self.ids@.len() implies #[trigger] self.pos@.contains_key(self.ids@[x].0)
                        && self.pos@[self.ids@[x].0] == x by {
                        if x < n {
                            assert(self.ids@[x] == old_ids[x]);
                            assert(old_pos.contains_key(old_ids[x].0));
                            assert(old_ids[x].0 != id.0);
                        }
                    }
                    assert forall|k: u64| #[trigger] self.pos@.contains_key(k) implies self.pos@[k] < self.ids@.len()
                        && self.ids@[self.pos@[k] as int].0 == k by {
                        if k != id.0 {
                            assert(old_pos.contains_key(k));
                        }
                    }
                    assert forall|k: u64| #[trigger] self.spec_vectors().contains_key(k) implies self.spec_vectors()[k]
                        == old(self).spec_vectors().insert(id.0, q@)[k] by {
                        let r = self.pos@[k] as int;
                        if k == id.0 {
                            assert(self.spec_row(r) =~= q@);
                        } else {
                            lemma_row_bounds(r, n, d as int);
                            assert(self.spec_row(r) =~= old(self).spec_row(r));
                        }
                    }
                    assert(self.spec_vectors() =~= old(self).spec_vectors().insert(id.0, q@));
                }
            },
        }
        Ok(())
    }

    /// Remove `id` if present (no-op otherwise). The last row moves into the
    /// freed one, so the buffer stays dense.
    pub fn remove(&mut self, id: ChunkId)
        requires old(self).wf(),
        ensures
            final(self).wf(),
            final(self).spec_dim() == old(self).spec_dim(),
            final(self).spec_vectors() == old(self).spec_vectors().remove(id.0),
            final(self).spec_ids() == if old(self).spec_vectors().contains_key(id.0) {
                let i = old(self).spec_ids().index_of(id);
                old(self).spec_ids().update(i, old(self).spec_ids().last()).drop_last()
            } else {
                old(self).spec_ids()
            },
    {
        let ghost old_ids = self.ids@;
        let ghost old_codes = self.codes@;
        let ghost old_pos = self.pos@;
        let ghost n = self.ids@.len() as int;
        let d = self.dim;
        let i = match self.pos.remove(&id.0) {
            Some(i) => i,
            None => {
                assert(self.spec_vectors() =~= old(self).spec_vectors().remove(id.0));
                return;
            },
        };
        assert(self.pos@ == old_pos.remove(id.0));
        proof {
            assert(old_ids[i as int] == id);
            assert forall|w: int| 0 <= w < n && old_ids[w] == id implies w == i by {
                assert(old_pos[old_ids[w].0] == w);
            }
            assert(old_ids.index_of(id) == i as int);
            lemma_row_bounds(i as int, n, d as int);
        }
        let last = self.ids.len() - 1;
        proof {
            lemma_row_bounds(last as int, n, d as int);
            assert(self.codes@.len() == self.codes.len());
        }
        if i != last {
            let src = last * d;
            let dst = i * d;
            proof { lemma_row_bounds(i as int, last as int, d as int); }
            let mut j: usize = 0;
            while j < d
                invariant
                    j <= d,
                    d == self.dim,
                    src == last * d,
                    dst == i * d,
                    i < last,
                    dst + d <= src,
                    src + d == n * d,
                    self.codes@.len() == old_codes.len(),
                    old_codes.len() == n * d,
                    old_codes.len() <= usize::MAX,
                    forall|x: int| 0 <= x < self.codes@.len() ==> #[trigger] self.codes@[x] == if dst <= x < dst + j {
                        old_codes[x - dst + src]
                    } else {
                        old_codes[x]
                    },
                    self.ids@ == old_ids,
                    self.pos@ == old_pos.remove(id.0),
                decreases d - j,
            {
                let c = self.codes[src + j];
                self.codes.set(dst + j, c);
                j = j + 1;
            }
            let moved = self.ids[last];
            self.ids.set(i, moved);
            self.pos.insert(moved.0, i);
        }
        let ghost mv = old_ids[last as int];
        assert(self.pos@ == if i != last { old_pos.remove(id.0).insert(mv.0, i) } else { old_pos.remove(id.0) });
        assert(self.ids@ == if i != last { old_ids.update(i as int, mv) } else { old_ids });
        self.ids.pop();
        self.codes.truncate(last * d);
        proof {
            let new_ids = old_ids.update(i as int, old_ids.last()).drop_last();
            assert(self.ids@ =~= new_ids);
            assert(self.codes@.len() == last * d);
            assert forall|x: int| 0 <= x < self.ids@.len() implies #[trigger] self.pos@.contains_key(self.ids@[x].0)
                && self.pos@[self.ids@[x].0] == x by {
                if x != i {
                    assert(self.ids@[x] == old_ids[x]);
                    assert(old_ids[x].0 != id.0);
                    assert(old_ids[x].0 != old_ids[last as int].0) by {
                        assert(old_pos.contains_key(old_ids[x].0));
                        assert(old_pos.contains_key(old_ids[last as int].0));
                    }
                }
            }
            assert forall|k: u64| #[trigger] self.pos@.contains_key(k) implies self.pos@[k] < self.ids@.len()
                && self.ids@[self.pos@[k] as int].0 == k by {
                assert(old_pos.contains_key(k) && k != id.0);
                if k != old_ids[last as int].0 {
                    assert(old_pos[k] != last);
                    assert(old_pos[k] != i) by {
                        assert(old_ids[i as int].0 == id.0);
                    }
                }
            }
            assert forall|k: u64| #[trigger] self.spec_vectors().contains_key(k) implies self.spec_vectors()[k]
                == old(self).spec_vectors().remove(id.0)[k] by {
                let r = self.pos@[k] as int;
                lemma_row_bounds(r, last as int, d as int);
                if r == i && i != last {
                    assert(k == old_ids[last as int].0);
                    assert(old_pos[k] == last);
                    assert(self.spec_row(r) =~= old(self).spec_row(last as int));
                } else {
                    assert(old_pos[k] == r);
                    if r < i {
                        lemma_row_bounds(r, i as int, d as int);
                    } else if r > i {
                        lemma_row_bounds(i as int, r, d as int);
                    }
                    assert(self.spec_row(r) =~= old(self).spec_row(r));
                }
            }
            assert(self.spec_vectors() =~= old(self).spec_vectors().remove(id.0));
        }
    }
}

} // verus!
