//! The record shaping and key layout behind the persistent store: the chunk
//! records a document's new chunks become (chained through `prev`/`next`),
//! the secondary-index keys for metadata and names, tag-candidate combination,
//! sequence numbers, pagination windows and the schema-version check. The
//! store itself (transactions on the database file) lives with the caller.

use vstd::prelude::*;

use crate::error::NucleusError;
use crate::id::{ChunkId, DocumentId, DomainId, SubdomainId, TagId};
use crate::idset::IdSet;
use crate::model::Chunk;
use crate::text::push_char;
use crate::util::{dec_digits, push_digits};

verus! {

broadcast use vstd::string::group_string_axioms;

/// The schema version this library writes.
pub const SCHEMA_VERSION: u64 = 1;

/// The secondary-index key of a metadata pair: `key`, U+001F, `value` (the
/// separator keeps `a`+`bc` distinct from `ab`+`c`).
pub open spec fn meta_key_spec(key: Seq<char>, value: Seq<char>) -> Seq<char> {
    key + seq!['\u{1f}'] + value
}

/// The by-name key of a subdomain or tag: the domain id in decimal, U+001F,
/// the name.
pub open spec fn name_key_spec(domain: u64, name: Seq<char>) -> Seq<char> {
    dec_digits(domain as nat) + seq!['\u{1f}'] + name
}

/// Build the metadata index key of `key`/`value`.
pub fn meta_key(key: &str, value: &str) -> (r: String)
    ensures r@ == meta_key_spec(key@, value@),
{
    let mut s = key.to_owned();
    push_char(&mut s, '\u{1f}');
    s.append(value);
    s
}

/// Build the by-name key of `name` in domain `domain_id`.
pub fn name_key(domain_id: DomainId, name: &str) -> (r: String)
    ensures r@ == name_key_spec(domain_id.0, name@),
{
    let mut s = String::new();
    push_digits(&mut s, domain_id.0);
    push_char(&mut s, '\u{1f}');
    s.append(name);
    assert(Seq::<char>::empty() + dec_digits(domain_id.0 as nat) =~= dec_digits(domain_id.0 as nat));
    s
}

/// The prefix every by-name and content-hash key of a domain starts with.
pub fn domain_key_prefix(domain_id: DomainId) -> (r: String)
    ensures r@ == dec_digits(domain_id.0 as nat) + seq!['\u{1f}'],
{
    let mut s = String::new();
    push_digits(&mut s, domain_id.0);
    push_char(&mut s, '\u{1f}');
    assert(Seq::<char>::empty() + dec_digits(domain_id.0 as nat) =~= dec_digits(domain_id.0 as nat));
    s
}

/// Whether `key` starts with `prefix` (`str::starts_with`).
pub fn has_prefix(key: &str, prefix: &str) -> (r: bool)
    ensures r == (prefix@.len() <= key@.len() && key@.take(prefix@.len() as int) == prefix@),
{
    let k = crate::text::str_chars(key);
    let p = crate::text::str_chars(prefix);
    if p.len() > k.len() {
        return false;
    }
    let mut i: usize = 0;
    while i < p.len()
        invariant
            p@ == prefix@,
            k@ == key@,
            p@.len() <= k@.len(),
            i <= p@.len(),
            forall|j: int| 0 <= j < i ==> k@[j] == p@[j],
        decreases p.len() - i,
    {
        if k[i] != p[i] {
            assert(k@.take(p@.len() as int)[i as int] != p@[i as int]);
            return false;
        }
        i = i + 1;
    }
    assert(k@.take(p@.len() as int) =~= p@);
    true
}

/// The next value of a sequence counter whose current value is `current`
/// (an absent counter starts at zero).
pub fn next_seq_value(current: Option<u64>) -> (r: u64)
    requires current matches Some(c) ==> c < u64::MAX,
    ensures r == match current { Some(c) => c + 1, None => 1 },
{
    match current {
        Some(c) => c + 1,
        None => 1,
    }
}

/// What opening a database with stored schema version `stored` does.
#[derive(Debug, Clone, Copy, PartialEq, Eq, Structural)]
pub enum SchemaAction {
    /// A fresh database: stamp the current version.
    Stamp,
    /// Already at the current version.
    Current,
    /// An older version: migrate from it, then stamp.
    Migrate(u64),
}

/// Check a stored schema version against `SCHEMA_VERSION`: a newer one is
/// refused.
pub fn schema_action(stored: Option<u64>) -> (r: Result<SchemaAction, NucleusError>)
    ensures
        match stored {
            None => r == Ok::<SchemaAction, NucleusError>(SchemaAction::Stamp),
            Some(v) => if v == SCHEMA_VERSION {
                r == Ok::<SchemaAction, NucleusError>(SchemaAction::Current)
            } else if v < SCHEMA_VERSION {
                r == Ok::<SchemaAction, NucleusError>(SchemaAction::Migrate(v))
            } else {
                r matches Err(NucleusError::InvalidRequest(m)) && m@ == "database schema v"@ + dec_digits(v as nat)
                    + " is newer than supported v1; upgrade Nucleus"@
            },
        },
{
    match stored {
        None => Ok(SchemaAction::Stamp),
        Some(v) => {
            if v == SCHEMA_VERSION {
                Ok(SchemaAction::Current)
            } else if v < SCHEMA_VERSION {
                Ok(SchemaAction::Migrate(v))
            } else {
                let mut m = "database schema v".to_owned();
                push_digits(&mut m, v);
                m.append(" is newer than supported v1; upgrade Nucleus");
                Err(NucleusError::invalid(m))
            }
        },
    }
}

/// The positions a page covers in a list of `total` entries: from `offset`,
/// at most `limit` of them.
pub fn page_bounds(total: usize, offset: usize, limit: usize) -> (r: (usize, usize))
    ensures
        r.0 == if offset <= total { offset } else { total },
        r.1 == if r.0 + limit <= total { r.0 + limit } else { total as int },
{
    let start = if offset <= total { offset } else { total };
    let end = if limit <= total - start { start + limit } else { total };
    (start, end)
}

/// The combined candidate set of a tag filter: none for no tags; otherwise
/// the chunks carrying every tag (`match_all`) or any of them.
pub open spec fn tag_candidates_spec(sets: Seq<Set<u64>>, match_all: bool) -> Option<Set<u64>>
    decreases sets.len(),
{
    if sets.len() == 0 {
        None
    } else {
        match tag_candidates_spec(sets.drop_last(), match_all) {
            None => Some(sets.last()),
            Some(p) => Some(if match_all { p.intersect(sets.last()) } else { p.union(sets.last()) }),
        }
    }
}

/// With labels required all together the candidates are the chunks carrying
/// every label (an empty set among them leaves none); with any label enough,
/// the chunks carrying at least one. No labels give no restriction (`None`).
pub proof fn lemma_tag_candidates_meaning(sets: Seq<Set<u64>>, match_all: bool)
    ensures
        sets.len() == 0 <==> tag_candidates_spec(sets, match_all) is None,
        tag_candidates_spec(sets, match_all) matches Some(r) ==> forall|x: u64| #[trigger] r.contains(x) <==> if match_all {
            forall|i: int| 0 <= i < sets.len() ==> #[trigger] sets[i].contains(x)
        } else {
            exists|i: int| 0 <= i < sets.len() && #[trigger] sets[i].contains(x)
        },
    decreases sets.len(),
{
    if sets.len() > 0 {
        let init = sets.drop_last();
        lemma_tag_candidates_meaning(init, match_all);
        if let Some(r) = tag_candidates_spec(sets, match_all) {
            assert forall|x: u64| #[trigger] r.contains(x) <==> if match_all {
                forall|i: int| 0 <= i < sets.len() ==> #[trigger] sets[i].contains(x)
            } else {
                exists|i: int| 0 <= i < sets.len() && #[trigger] sets[i].contains(x)
            } by {
                assert forall|i: int| 0 <= i < init.len() implies init[i] == sets[i] by {}
                if match_all {
                    if r.contains(x) {
                        assert forall|i: int| 0 <= i < sets.len() implies #[trigger] sets[i].contains(x) by {
                            if i < init.len() {
                                assert(init[i] == sets[i]);
                            }
                        }
                    } else if forall|i: int| 0 <= i < sets.len() ==> #[trigger] sets[i].contains(x) {
                        assert(sets[sets.len() - 1].contains(x));
                        assert forall|i: int| 0 <= i < init.len() implies #[trigger] init[i].contains(x) by {
                            assert(sets[i].contains(x));
                        }
                    }
                } else {
                    if r.contains(x) {
                        if init.len() > 0 && tag_candidates_spec(init, match_all).unwrap().contains(x) {
                            let i = choose|i: int| 0 <= i < init.len() && #[trigger] init[i].contains(x);
                            assert(sets[i].contains(x));
                        } else {
                            assert(sets[sets.len() - 1].contains(x));
                        }
                    } else if exists|i: int| 0 <= i < sets.len() && #[trigger] sets[i].contains(x) {
                        let i = choose|i: int| 0 <= i < sets.len() && #[trigger] sets[i].contains(x);
                        if i < init.len() {
                            assert(init[i].contains(x));
                        }
                    }
                }
            }
        }
    }
}

/// Combine the per-tag candidate sets (one per requested tag, in order).
pub fn tag_candidates(sets: &Vec<IdSet>, match_all: bool) -> (r: Option<IdSet>)
    requires forall|i: int| 0 <= i < sets@.len() ==> (#[trigger] sets@[i]).wf(),
    ensures
        match tag_candidates_spec(sets@.map_values(|s: IdSet| s@), match_all) {
            None => r is None,
            Some(t) => r matches Some(x) && x.wf() && x@ == t,
        },
{
    let ghost sv = sets@.map_values(|s: IdSet| s@);
    let mut acc: Option<IdSet> = None;
    let mut i: usize = 0;
    while i < sets.len()
        invariant
            i <= sets@.len(),
            sv == sets@.map_values(|s: IdSet| s@),
            forall|j: int| 0 <= j < sets@.len() ==> (#[trigger] sets@[j]).wf(),
            match tag_candidates_spec(sv.take(i as int), match_all) {
                None => acc is None,
                Some(t) => acc matches Some(x) && x.wf() && x@ == t,
            },
        decreases sets.len() - i,
    {
        assert(sv.take(i + 1).drop_last() =~= sv.take(i as int));
        assert(sv.take(i + 1).last() == sets@[i as int]@);
        let s = &sets[i];
        acc = match acc {
            None => Some(s.intersect(s)),
            Some(p) => if match_all { Some(p.intersect(s)) } else { Some(p.union(s)) },
        };
        proof {
            assert(sets@[i as int]@.intersect(sets@[i as int]@) =~= sets@[i as int]@);
        }
        i = i + 1;
    }
    assert(sv.take(sv.len() as int) =~= sv);
    acc
}

pub(crate) fn copy_tags(tags: &Vec<TagId>) -> (r: Vec<TagId>)
    ensures r@ == tags@,
{
    let mut out: Vec<TagId> = Vec::new();
    let mut i: usize = 0;
    while i < tags.len()
        invariant
            i <= tags@.len(),
            out@ == tags@.take(i as int),
        decreases tags.len() - i,
    {
        out.push(tags[i]);
        i = i + 1;
        assert(out@ =~= tags@.take(i as int));
    }
    assert(tags@.take(tags@.len() as int) =~= tags@);
    out
}

fn copy_meta(meta: &Vec<(String, String)>) -> (r: Vec<(String, String)>)
    ensures r@ == meta@,
{
    let mut out: Vec<(String, String)> = Vec::new();
    let mut i: usize = 0;
    while i < meta.len()
        invariant
            i <= meta@.len(),
            out@ == meta@.take(i as int),
        decreases meta.len() - i,
    {
        let (k, v) = &meta[i];
        out.push((k.clone(), v.clone()));
        i = i + 1;
        assert(out@ =~= meta@.take(i as int));
    }
    assert(meta@.take(meta@.len() as int) =~= meta@);
    out
}

/// The neighbours of position `i` in a document's chunk order.
pub open spec fn neighbours_spec(ids: Seq<ChunkId>, i: int) -> (Option<ChunkId>, Option<ChunkId>) {
    (
        if i > 0 { Some(ids[i - 1]) } else { None },
        if i + 1 < ids.len() { Some(ids[i + 1]) } else { None },
    )
}

/// The `prev`/`next` links of position `i` in a document's chunk order.
pub fn neighbours(ids: &[ChunkId], i: usize) -> (r: (Option<ChunkId>, Option<ChunkId>))
    requires i < ids@.len(),
    ensures r == neighbours_spec(ids@, i as int),
{
    let prev = if i > 0 { Some(ids[i - 1]) } else { None };
    let next = if i + 1 < ids.len() { Some(ids[i + 1]) } else { None };
    (prev, next)
}

/// The stored records of a document's new chunks: chunk `i` gets id `ids[i]`,
/// ordinal `i`, text `texts[i]`, the document's tags and metadata, and links
/// to its neighbours in that order.
pub fn chunk_records(
    ids: &[ChunkId],
    document_id: DocumentId,
    domain_id: DomainId,
    subdomain_id: Option<SubdomainId>,
    tags: &Vec<TagId>,
    metadata: &Vec<(String, String)>,
    texts: &[String],
) -> (r: Vec<Chunk>)
    requires ids@.len() == texts@.len(),
    ensures
        r@.len() == ids@.len(),
        forall|i: int| 0 <= i < r@.len() ==> {
            let c = #[trigger] r@[i];
            &&& c.id == ids@[i]
            &&& c.document_id == document_id
            &&& c.domain_id == domain_id
            &&& c.subdomain_id == subdomain_id
            &&& c.ordinal == i as u32
            &&& c.text == texts@[i]
            &&& c.tags@ == tags@
            &&& c.metadata@ == metadata@
            &&& (c.prev, c.next) == neighbours_spec(ids@, i)
        },
{
    let mut out: Vec<Chunk> = Vec::new();
    let mut i: usize = 0;
    while i < ids.len()
        invariant
            i <= ids@.len(),
            ids@.len() == texts@.len(),
            out@.len() == i,
            forall|j: int| 0 <= j < i ==> {
                let c = #[trigger] out@[j];
                &&& c.id == ids@[j]
                &&& c.document_id == document_id
                &&& c.domain_id == domain_id
                &&& c.subdomain_id == subdomain_id
                &&& c.ordinal == j as u32
                &&& c.text == texts@[j]
                &&& c.tags@ == tags@
                &&& c.metadata@ == metadata@
                &&& (c.prev, c.next) == neighbours_spec(ids@, j)
            },
        decreases ids.len() - i,
    {
        let (prev, next) = neighbours(ids, i);
        let c = Chunk {
            id: ids[i],
            document_id,
            domain_id,
            subdomain_id,
            ordinal: i as u32,
            text: texts[i].clone(),
            tags: copy_tags(tags),
            metadata: copy_meta(metadata),
            prev,
            next,
        };
        out.push(c);
        i = i + 1;
    }
    out
}

/// Chunk records chain in document order: each chunk's `next` is the one
/// after it, whose `prev` points back to it.
pub proof fn lemma_chunk_chain(ids: Seq<ChunkId>, i: int)
    requires 0 <= i && i + 1 < ids.len(),
    ensures
        neighbours_spec(ids, i).1 == Some(ids[i + 1]),
        neighbours_spec(ids, i + 1).0 == Some(ids[i]),
        neighbours_spec(ids, 0).0 is None,
        neighbours_spec(ids, ids.len() - 1).1 is None,
{
}

} // verus!
