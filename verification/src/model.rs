//! Core domain entities: domains, subdomains, tags, documents and chunks.
//!
//! Metadata maps are held as `(key, value)` vectors in key order (each key at
//! most once), the shape in which they are persisted and filtered on.

use vstd::prelude::*;

use crate::id::{ChunkId, DocumentId, DomainId, SubdomainId, TagId};

verus! {

/// A retrievable unit of text. Chunks are chained (`prev`/`next`) so neighbours
/// can be fetched for context. The embedding is stored separately.
#[derive(Debug, Clone)]
pub struct Chunk {
    pub id: ChunkId,
    pub document_id: DocumentId,
    pub domain_id: DomainId,
    /// Optional subdomain, inherited from the document.
    pub subdomain_id: Option<SubdomainId>,
    /// Position of this chunk within its document (0-based).
    pub ordinal: u32,
    pub text: String,
    pub tags: Vec<TagId>,
    pub metadata: Vec<(String, String)>,
    pub prev: Option<ChunkId>,
    pub next: Option<ChunkId>,
}

/// A document belongs to a domain and is split into ordered chunks at
/// ingestion time. Tags applied here are inherited by its chunks.
#[derive(Debug, Clone)]
pub struct Document {
    pub id: DocumentId,
    pub domain_id: DomainId,
    /// Optional subdomain (topic) within the domain.
    pub subdomain_id: Option<SubdomainId>,
    pub title: String,
    /// Optional origin (path, URL, ...).
    pub source: Option<String>,
    pub metadata: Vec<(String, String)>,
    pub tags: Vec<TagId>,
    /// Creation time, Unix milliseconds.
    pub created_at: i64,
}

/// A named namespace pinned to one embedding model (and so one dimension).
#[derive(Debug, Clone)]
pub struct Domain {
    pub id: DomainId,
    pub name: String,
    /// Embedding model id pinned for this domain.
    pub model: String,
    /// Vector dimension produced by `model`.
    pub dim: usize,
    /// Creation time, Unix milliseconds.
    pub created_at: i64,
}

/// A concrete topic within a domain.
#[derive(Debug, Clone)]
pub struct Subdomain {
    pub id: SubdomainId,
    pub domain_id: DomainId,
    pub name: String,
    pub description: String,
    /// Creation time, Unix milliseconds.
    pub created_at: i64,
}

/// A tag in a domain's hierarchical taxonomy.
#[derive(Debug, Clone)]
pub struct Tag {
    pub id: TagId,
    pub domain_id: DomainId,
    pub name: String,
    pub display_name: String,
    pub description: String,
    pub parent: Option<TagId>,
    /// Creation time, Unix milliseconds.
    pub created_at: i64,
}

/// The value stored under `key` in a metadata list (the first entry with that
/// key), if any.
pub open spec fn meta_lookup(md: Seq<(String, String)>, key: Seq<char>) -> Option<Seq<char>>
    decreases md.len(),
{
    if md.len() == 0 {
        None
    } else if md[0].0@ == key {
        Some(md[0].1@)
    } else {
        meta_lookup(md.drop_first(), key)
    }
}

/// Look up `key` in a metadata list.
pub fn meta_get<'a>(md: &'a Vec<(String, String)>, key: &str) -> (r: Option<&'a String>)
    ensures
        match r {
            Some(v) => meta_lookup(md@, key@) == Some(v@),
            None => meta_lookup(md@, key@) is None,
        },
{
    let mut i: usize = 0;
    assert(md@.skip(0) =~= md@);
    while i < md.len()
        invariant
            i <= md@.len(),
            meta_lookup(md@, key@) == meta_lookup(md@.skip(i as int), key@),
        decreases md.len() - i,
    {
        assert(md@.skip(i as int).drop_first() =~= md@.skip(i as int + 1));
        if crate::text::str_eq(md[i].0.as_str(), key) {
            return Some(&md[i].1);
        }
        i = i + 1;
    }
    None
}

/// Each key occurs at most once.
pub open spec fn meta_keys_unique(md: Seq<(String, String)>) -> bool {
    forall|i: int, j: int| 0 <= i < j < md.len() ==> md[i].0@ != md[j].0@
}

/// The value of the last pair with key `key`, as a map filled from `pairs` in
/// order keeps it.
pub open spec fn last_value(pairs: Seq<(String, String)>, key: Seq<char>) -> Option<Seq<char>>
    decreases pairs.len(),
{
    if pairs.len() == 0 {
        None
    } else if pairs.last().0@ == key {
        Some(pairs.last().1@)
    } else {
        last_value(pairs.drop_last(), key)
    }
}

/// In a list, the lookup finds the first entry with the key, or says none has it.
pub proof fn lemma_lookup_index(md: Seq<(String, String)>, key: Seq<char>)
    ensures
        match meta_lookup(md, key) {
            Some(v) => exists|i: int| 0 <= i < md.len() && md[i].0@ == key && md[i].1@ == v
                && (forall|j: int| 0 <= j < i ==> md[j].0@ != key),
            None => forall|i: int| 0 <= i < md.len() ==> md[i].0@ != key,
        },
    decreases md.len(),
{
    if md.len() > 0 {
        let rest = md.drop_first();
        lemma_lookup_index(rest, key);
        if md[0].0@ != key {
            match meta_lookup(rest, key) {
                Some(v) => {
                    let i = choose|i: int| 0 <= i < rest.len() && rest[i].0@ == key && rest[i].1@ == v
                        && (forall|j: int| 0 <= j < i ==> rest[j].0@ != key);
                    assert(md[i + 1] == rest[i]);
                    assert forall|j: int| 0 <= j < i + 1 implies md[j].0@ != key by {
                        if j > 0 {
                            assert(md[j] == rest[j - 1]);
                        }
                    }
                },
                None => {
                    assert forall|i: int| 0 <= i < md.len() implies md[i].0@ != key by {
                        if i > 0 {
                            assert(md[i] == rest[i - 1]);
                        }
                    }
                },
            }
        }
    }
}

/// Where keys are unique, the lookup finds the entry at `i` by its key.
pub proof fn lemma_unique_lookup(md: Seq<(String, String)>, i: int)
    requires
        meta_keys_unique(md),
        0 <= i < md.len(),
    ensures
        meta_lookup(md, md[i].0@) == Some(md[i].1@),
{
    lemma_lookup_index(md, md[i].0@);
}

/// The index of the entry with key `key`, if any.
fn find_key(out: &Vec<(String, String)>, key: &str) -> (r: Option<usize>)
    ensures
        match r {
            Some(j) => j < out@.len() && out@[j as int].0@ == key@,
            None => forall|j: int| 0 <= j < out@.len() ==> out@[j].0@ != key@,
        },
{
    let mut j: usize = 0;
    while j < out.len()
        invariant
            j <= out@.len(),
            forall|m: int| 0 <= m < j ==> out@[m].0@ != key@,
        decreases out.len() - j,
    {
        if crate::text::str_eq(out[j].0.as_str(), key) {
            return Some(j);
        }
        j = j + 1;
    }
    None
}

/// `a` sorts before `b` as strings do: at the first character where they
/// differ the smaller code point comes first, and a proper prefix comes before
/// the longer string (UTF-8 bytes compare in the same order).
pub open spec fn str_less(a: Seq<char>, b: Seq<char>) -> bool
    decreases a.len(),
{
    if a.len() == 0 {
        b.len() > 0
    } else if b.len() == 0 {
        false
    } else if a[0] != b[0] {
        (a[0] as int) < (b[0] as int)
    } else {
        str_less(a.drop_first(), b.drop_first())
    }
}

/// The keys strictly increase in string order (as a `BTreeMap` walks them).
pub open spec fn meta_sorted(md: Seq<(String, String)>) -> bool {
    forall|i: int, j: int| 0 <= i < j < md.len() ==> str_less(#[trigger] md[i].0@, #[trigger] md[j].0@)
}

/// String order is a strict total order: irreflexive, transitive, and any two
/// different strings are ordered one way.
pub proof fn lemma_str_order(a: Seq<char>, b: Seq<char>, c: Seq<char>)
    ensures
        !str_less(a, a),
        str_less(a, b) && str_less(b, c) ==> str_less(a, c),
        a != b ==> str_less(a, b) || str_less(b, a),
        str_less(a, b) ==> !str_less(b, a),
    decreases a.len(),
{
    if a.len() > 0 {
        lemma_str_order(a.drop_first(), a.drop_first(), a.drop_first());
        if b.len() > 0 {
            if c.len() > 0 {
                lemma_str_order(a.drop_first(), b.drop_first(), c.drop_first());
            } else {
                lemma_str_order(a.drop_first(), b.drop_first(), b.drop_first());
            }
            if a[0] != b[0] {
                assert(a[0] as int != b[0] as int);
            }
            if a[0] == b[0] && a.drop_first() == b.drop_first() {
                assert(a =~= seq![a[0]] + a.drop_first());
                assert(b =~= seq![b[0]] + b.drop_first());
            }
        }
    } else {
        if b.len() == 0 {
            assert(a =~= b);
        }
    }
}

/// Whether `a` sorts before `b` (string order).
fn str_lt(a: &str, b: &str) -> (r: bool)
    ensures r == str_less(a@, b@),
{
    let x = crate::text::str_chars(a);
    let y = crate::text::str_chars(b);
    let mut i: usize = 0;
    assert(x@.skip(0) =~= x@ && y@.skip(0) =~= y@);
    while i < x.len() && i < y.len() && x[i] == y[i]
        invariant
            i <= x@.len(),
            i <= y@.len(),
            str_less(x@, y@) == str_less(x@.skip(i as int), y@.skip(i as int)),
        decreases x.len() - i,
    {
        assert(x@.skip(i as int).drop_first() =~= x@.skip(i + 1));
        assert(y@.skip(i as int).drop_first() =~= y@.skip(i + 1));
        i = i + 1;
    }
    if i == x.len() {
        i < y.len()
    } else if i == y.len() {
        false
    } else {
        x[i] < y[i]
    }
}

/// Sorted keys are unique.
proof fn lemma_sorted_unique(md: Seq<(String, String)>)
    requires meta_sorted(md),
    ensures meta_keys_unique(md),
{
    assert forall|i: int, j: int| 0 <= i < j < md.len() implies md[i].0@ != md[j].0@ by {
        lemma_str_order(md[i].0@, md[i].0@, md[i].0@);
    }
}

/// A metadata list built from `pairs` as a map would be: a later pair with the
/// same key replaces the earlier value, and the keys come in string order. Each
/// key ends up once, holding the value of its last pair.
pub fn metadata_from_pairs(pairs: &Vec<(String, String)>) -> (r: Vec<(String, String)>)
    ensures
        meta_sorted(r@),
        meta_keys_unique(r@),
        forall|key: Seq<char>| #[trigger] meta_lookup(r@, key) == last_value(pairs@, key),
{
    let mut out: Vec<(String, String)> = Vec::new();
    let mut i: usize = 0;
    while i < pairs.len()
        invariant
            i <= pairs@.len(),
            meta_sorted(out@),
            forall|j: int| 0 <= j < out@.len()
                ==> last_value(pairs@.take(i as int), #[trigger] out@[j].0@) == Some(out@[j].1@),
            forall|key: Seq<char>| #[trigger] last_value(pairs@.take(i as int), key) is Some
                ==> exists|j: int| 0 <= j < out@.len() && out@[j].0@ == key,
        decreases pairs.len() - i,
    {
        let ghost before = out@;
        let ghost prev = pairs@.take(i as int);
        let ghost next = pairs@.take(i + 1);
        let (k, v) = &pairs[i];
        assert(next.drop_last() =~= prev);
        assert(next.last() == pairs@[i as int]);
        match find_key(&out, k.as_str()) {
            Some(j) => {
                proof { lemma_sorted_unique(before); }
                out.set(j, (k.clone(), v.clone()));
                assert forall|m: int, n: int| 0 <= m < n < out@.len()
                    implies str_less(#[trigger] out@[m].0@, #[trigger] out@[n].0@) by {
                    assert(before[m].0@ == out@[m].0@ && before[n].0@ == out@[n].0@);
                }
                assert forall|m: int| 0 <= m < out@.len()
                    implies last_value(next, #[trigger] out@[m].0@) == Some(out@[m].1@) by {
                    if m != j {
                        assert(out@[m] == before[m]);
                    }
                }
                assert forall|key: Seq<char>| #[trigger] last_value(next, key) is Some
                    implies exists|m: int| 0 <= m < out@.len() && out@[m].0@ == key by {
                    if key == k@ {
                        assert(out@[j as int].0@ == key);
                    } else {
                        assert(last_value(prev, key) is Some);
                        let m = choose|m: int| 0 <= m < before.len() && before[m].0@ == key;
                        assert(out@[m] == before[m]);
                    }
                }
            },
            None => {
                let mut p: usize = 0;
                while p < out.len() && str_lt(out[p].0.as_str(), k.as_str())
                    invariant
                        p <= out@.len(),
                        out@ == before,
                        forall|m: int| 0 <= m < p ==> str_less(#[trigger] before[m].0@, k@),
                    decreases out.len() - p,
                {
                    p = p + 1;
                }
                assert forall|m: int| p <= m < before.len() implies str_less(k@, #[trigger] before[m].0@) by {
                    lemma_str_order(k@, before[p as int].0@, before[m].0@);
                }
                out.insert(p, (k.clone(), v.clone()));
                assert(out@ == before.insert(p as int, out@[p as int]));
                assert(out@[p as int].0@ == k@ && out@[p as int].1@ == v@);
                assert forall|m: int, n: int| 0 <= m < n < out@.len()
                    implies str_less(#[trigger] out@[m].0@, #[trigger] out@[n].0@) by {
                    if n < p {
                        assert(out@[m] == before[m] && out@[n] == before[n]);
                    } else if n == p {
                        assert(out@[m] == before[m]);
                    } else if m < p {
                        assert(out@[m] == before[m] && out@[n] == before[n - 1]);
                    } else if m == p {
                        assert(out@[n] == before[n - 1]);
                    } else {
                        assert(out@[m] == before[m - 1] && out@[n] == before[n - 1]);
                    }
                }
                assert forall|m: int| 0 <= m < out@.len()
                    implies last_value(next, #[trigger] out@[m].0@) == Some(out@[m].1@) by {
                    if m < p {
                        assert(out@[m] == before[m]);
                    } else if m > p {
                        assert(out@[m] == before[m - 1]);
                    }
                }
                assert forall|key: Seq<char>| #[trigger] last_value(next, key) is Some
                    implies exists|m: int| 0 <= m < out@.len() && out@[m].0@ == key by {
                    if key == k@ {
                        assert(out@[p as int].0@ == key);
                    } else {
                        assert(last_value(prev, key) is Some);
                        let m = choose|m: int| 0 <= m < before.len() && before[m].0@ == key;
                        if m < p {
                            assert(out@[m] == before[m]);
                        } else {
                            assert(out@[m + 1] == before[m]);
                        }
                    }
                }
            },
        }
        i = i + 1;
    }
    proof { lemma_sorted_unique(out@); }
    assert(pairs@.take(pairs@.len() as int) =~= pairs@);
    assert forall|key: Seq<char>| #[trigger] meta_lookup(out@, key) == last_value(pairs@, key) by {
        lemma_lookup_index(out@, key);
        match last_value(pairs@, key) {
            Some(v) => {
                let j = choose|j: int| 0 <= j < out@.len() && out@[j].0@ == key;
                lemma_unique_lookup(out@, j);
            },
            None => {
                if meta_lookup(out@, key) is Some {
                    let j = choose|j: int| 0 <= j < out@.len() && out@[j].0@ == key
                        && out@[j].1@ == meta_lookup(out@, key)->0
                        && (forall|m: int| 0 <= m < j ==> out@[m].0@ != key);
                    assert(last_value(pairs@, out@[j].0@) == Some(out@[j].1@));
                }
            },
        }
    }
    out
}

} // verus!
