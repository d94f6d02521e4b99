//! Search indexes: the BM25 lexical index and the scalar-quantised vector
//! index bookkeeping, plus the choice of vector backend.

use vstd::prelude::*;

use crate::text::{chars_eq, lower, lower_chars};

pub mod lexical;
pub mod sq;
pub mod hnsw;

verus! {

/// Which index backend to use for a domain.
#[derive(Debug, Clone, Copy, PartialEq, Eq, Structural)]
pub enum IndexKind {
    /// Exact brute-force cosine — small/medium domains, exact filters.
    Flat,
    /// Approximate HNSW — large domains.
    Hnsw,
}

/// The backend a configuration string names, ignoring ASCII case.
pub open spec fn index_kind_of(s: Seq<char>) -> Option<IndexKind> {
    if lower(s) == seq!['f', 'l', 'a', 't'] {
        Some(IndexKind::Flat)
    } else if lower(s) == seq!['h', 'n', 's', 'w'] {
        Some(IndexKind::Hnsw)
    } else {
        None
    }
}

impl IndexKind {
    /// Parse from a config string (`flat` / `hnsw`, any ASCII case).
    pub fn parse(s: &str) -> (r: Option<Self>)
        ensures r == index_kind_of(s@),
    {
        let l = lower_chars(s);
        if chars_eq(l.as_slice(), &['f', 'l', 'a', 't']) {
            Some(IndexKind::Flat)
        } else if chars_eq(l.as_slice(), &['h', 'n', 's', 'w']) {
            Some(IndexKind::Hnsw)
        } else {
            None
        }
    }
}

impl Default for IndexKind {
    /// Exact search is the default backend.
    fn default() -> (r: Self)
        ensures r == IndexKind::Flat,
    {
        IndexKind::Flat
    }
}

} // verus!
