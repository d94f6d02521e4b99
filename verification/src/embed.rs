//! The deterministic, dependency-free embedder used in tests and demos: a
//! bag-of-words vector where each whitespace-separated word, lower-cased, is
//! hashed with FNV-1a into one of `dim` buckets and increments it. Texts that
//! share words get similar vectors.

use vstd::prelude::*;

use crate::text::{split_ws, str_lowercase, str_views, to_lowercase, ws_words};

verus! {

broadcast use vstd::string::group_string_axioms;

/// FNV-1a 64-bit offset basis.
pub const FNV_OFFSET: u64 = 0xcbf2_9ce4_8422_2325;

/// FNV-1a 64-bit prime.
pub const FNV_PRIME: u64 = 0x100_0000_01b3;

/// One FNV-1a step: xor in the byte, then multiply (wrapping).
pub open spec fn fnv_step(h: u64, b: u8) -> u64 {
    (((h ^ (b as u64)) as nat * FNV_PRIME as nat) % 0x1_0000_0000_0000_0000) as u64
}

/// FNV-1a of `bytes`, starting from `h`.
pub open spec fn fnv_from(h: u64, bytes: Seq<u8>) -> u64
    decreases bytes.len(),
{
    if bytes.len() == 0 {
        h
    } else {
        fnv_step(fnv_from(h, bytes.drop_last()), bytes.last())
    }
}

/// The bucket a word falls in: FNV-1a of its lower-cased UTF-8 bytes, modulo `dim`.
pub open spec fn word_bucket(word: Seq<char>, dim: nat) -> int {
    (fnv_from(FNV_OFFSET, vstd::utf8::encode_utf8(str_lowercase(word))) as nat % dim) as int
}

/// How many of `words` fall in each of the `dim` buckets.
pub open spec fn bucket_counts_spec(words: Seq<Seq<char>>, dim: nat) -> Seq<int>
    decreases words.len(),
{
    if words.len() == 0 {
        Seq::new(dim, |i: int| 0int)
    } else {
        let c = bucket_counts_spec(words.drop_last(), dim);
        let b = word_bucket(words.last(), dim);
        c.update(b, c[b] + 1)
    }
}

proof fn lemma_bucket_counts_len(words: Seq<Seq<char>>, dim: nat)
    requires dim > 0,
    ensures bucket_counts_spec(words, dim).len() == dim,
    decreases words.len(),
{
    if words.len() > 0 {
        lemma_bucket_counts_len(words.drop_last(), dim);
    }
}

/// Deterministic bag-of-words embedder.
#[derive(Debug, Clone, Copy)]
pub struct MockEmbedder {
    dim: usize,
}

fn fnv1a(bytes: &[u8]) -> (r: u64)
    ensures r == fnv_from(FNV_OFFSET, bytes@),
{
    let mut h: u64 = FNV_OFFSET;
    let mut i: usize = 0;
    while i < bytes.len()
        invariant
            i <= bytes@.len(),
            h == fnv_from(FNV_OFFSET, bytes@.take(i as int)),
        decreases bytes.len() - i,
    {
        assert(bytes@.take(i + 1).drop_last() =~= bytes@.take(i as int));
        h = (h ^ (bytes[i] as u64)).wrapping_mul(FNV_PRIME);
        i = i + 1;
    }
    assert(bytes@.take(bytes@.len() as int) =~= bytes@);
    h
}

impl MockEmbedder {
    /// There is always at least one bucket.
    #[verifier::type_invariant]
    spec fn has_buckets(self) -> bool {
        self.dim >= 1
    }

    /// The number of buckets (at least one).
    pub closed spec fn spec_dim(&self) -> nat {
        self.dim as nat
    }

    /// An embedder with `dim` buckets (at least one).
    pub fn new(dim: usize) -> (r: Self)
        ensures r.spec_dim() == if dim >= 1 { dim as nat } else { 1 },
    {
        MockEmbedder { dim: if dim >= 1 { dim } else { 1 } }
    }

    /// The output dimension.
    pub fn dim(&self) -> (r: usize)
        ensures r == self.spec_dim(),
    {
        self.dim
    }

    /// The bucket counts of `text`: one entry per dimension, the number of its
    /// whitespace-separated words hashing there.
    pub fn bucket_counts(&self, text: &str) -> (r: Vec<u64>)
        ensures
            r@.len() == self.spec_dim(),
            forall|i: int| 0 <= i < r@.len() ==> r@[i] == #[trigger] bucket_counts_spec(ws_words(text@), self.spec_dim())[i],
    {
        proof { use_type_invariant(self); }
        let words = split_ws(text);
        let ghost ws = str_views(words@);
        let d = self.dim;
        let mut v: Vec<u64> = Vec::new();
        let mut z: usize = 0;
        while z < d
            invariant
                z <= d,
                v@ == Seq::new(z as nat, |i: int| 0u64),
            decreases d - z,
        {
            v.push(0);
            z = z + 1;
            assert(v@ =~= Seq::new(z as nat, |i: int| 0u64));
        }
        let mut i: usize = 0;
        while i < words.len()
            invariant
                i <= words@.len(),
                d >= 1,
                ws == str_views(words@),
                v@.len() == d,
                bucket_counts_spec(ws.take(i as int), d as nat).len() == d,
                forall|j: int| 0 <= j < d ==> v@[j] == #[trigger] bucket_counts_spec(ws.take(i as int), d as nat)[j],
                forall|j: int| 0 <= j < d ==> v@[j] <= i,
            decreases words.len() - i,
        {
            let lw = to_lowercase(words[i].as_str());
            let h = fnv1a(lw.as_str().as_bytes());
            let b = (h % (d as u64)) as usize;
            assert(ws.take(i + 1).drop_last() =~= ws.take(i as int));
            assert(ws.take(i + 1).last() == words@[i as int]@);
            assert(b as int == word_bucket(words@[i as int]@, d as nat));
            let c = v[b];
            v.set(b, c + 1);
            i = i + 1;
            proof { lemma_bucket_counts_len(ws.take(i as int), d as nat); }
        }
        assert(ws.take(ws.len() as int) =~= ws);
        proof { lemma_bucket_counts_len(ws, d as nat); }
        v
    }
}

impl Default for MockEmbedder {
    /// 32 buckets.
    fn default() -> (r: Self)
        ensures r.spec_dim() == 32,
    {
        MockEmbedder::new(32)
    }
}

} // verus!
