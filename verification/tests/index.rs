use nucleus::error::NucleusError;
use nucleus::id::ChunkId;
use nucleus::index::lexical::{tokenize, LexicalIndex};
use nucleus::index::sq::SqFlatIndex;
use nucleus::index::hnsw::HnswBook;
use nucleus::idset::IdSet;
use nucleus::index::IndexKind;

fn id(n: u64) -> ChunkId {
    ChunkId::new(n)
}

#[test]
fn sq_rejects_wrong_dimension() {
    let mut ix = SqFlatIndex::new(3);
    assert!(matches!(
        ix.upsert(id(1), &[127, 0]),
        Err(NucleusError::DimensionMismatch { expected: 3, got: 2 })
    ));
    assert_eq!(ix.len(), 0);
}

#[test]
fn sq_upsert_replaces_in_place_and_remove_swaps_last() {
    let mut ix = SqFlatIndex::new(2);
    ix.upsert(id(1), &[127, 0]).unwrap();
    ix.upsert(id(2), &[0, 127]).unwrap();
    ix.upsert(id(3), &[90, 90]).unwrap();
    assert_eq!(ix.len(), 3);
    ix.upsert(id(2), &[1, 2]).unwrap();
    assert_eq!(ix.len(), 3);
    assert_eq!(ix.id_at(1), id(2));
    assert_eq!(ix.row(1), &[1, 2]);
    ix.remove(id(1));
    assert_eq!(ix.len(), 2);
    assert_eq!(ix.id_at(0), id(3));
    assert_eq!(ix.row(0), &[90, 90]);
    assert_eq!(ix.id_at(1), id(2));
    assert_eq!(ix.row(1), &[1, 2]);
    ix.remove(id(42));
    assert_eq!(ix.len(), 2);
    ix.remove(id(2));
    ix.remove(id(3));
    assert!(ix.is_empty());
    assert_eq!(ix.dim(), 2);
}

#[test]
fn index_kind_parse() {
    assert_eq!(IndexKind::parse("flat"), Some(IndexKind::Flat));
    assert_eq!(IndexKind::parse("HNSW"), Some(IndexKind::Hnsw));
    assert_eq!(IndexKind::parse("Flat"), Some(IndexKind::Flat));
    assert_eq!(IndexKind::parse(" flat"), None);
    assert_eq!(IndexKind::parse("ivf"), None);
    assert_eq!(IndexKind::default(), IndexKind::Flat);
}

#[test]
fn tokenize_keeps_alphanumeric_runs_of_two_or_more() {
    assert_eq!(tokenize("El Contrato, art. 14 — y más"), vec!["el", "contrato", "art", "14", "más"]);
    assert!(tokenize("a b c").is_empty());
    assert_eq!(tokenize("ÑANDÚ"), vec!["ñandú"]);
}

#[test]
fn tombstones_count_as_removed() {
    let mut ix = LexicalIndex::new();
    assert!(ix.is_empty());
    ix.add(id(1), "contrato laboral");
    ix.add(id(2), "contrato mercantil");
    ix.remove(id(1));
    assert_eq!(ix.len(), 1);
    ix.remove(id(7));
    assert_eq!(ix.len(), 1);
    ix.add(id(1), "contrato laboral");
    assert_eq!(ix.len(), 2);
    ix.add(id(2), "otra cosa");
    assert_eq!(ix.len(), 2);
}

#[test]
fn hnsw_book_tracks_tombstones_and_live_count() {
    let mut b = HnswBook::new(3);
    assert_eq!(b.dim(), 3);
    b.record_insert(ChunkId::new(1));
    b.record_insert(ChunkId::new(2));
    assert_eq!(b.len(), 2);
    b.record_remove(ChunkId::new(1));
    assert_eq!(b.len(), 1);
    assert_eq!(b.tombstone_ids(), vec![1]);
    // a repeated removal changes nothing
    b.record_remove(ChunkId::new(1));
    assert_eq!(b.len(), 1);
    assert_eq!(b.tombstone_count(), 1);
    // re-inserting revives the chunk
    b.record_insert(ChunkId::new(1));
    assert_eq!(b.tombstone_count(), 0);
    assert_eq!(b.len(), 2);
}

#[test]
fn hnsw_book_removal_never_goes_below_zero() {
    let mut b = HnswBook::new(2);
    b.record_remove(ChunkId::new(7));
    assert_eq!(b.len(), 0);
    assert_eq!(b.tombstone_ids(), vec![7]);
}

#[test]
fn hnsw_fetch_sizes_over_fetch_within_bounds() {
    let mut b = HnswBook::new(2);
    assert_eq!(b.fetch_sizes(5, 1000), (20, 64));
    assert_eq!(b.fetch_sizes(5, 10), (10, 64));
    assert_eq!(b.fetch_sizes(30, 1000), (120, 120));
    b.record_remove(ChunkId::new(1));
    b.record_remove(ChunkId::new(2));
    assert_eq!(b.fetch_sizes(5, 1000), (22, 64));
    // a huge `k` saturates, then the total caps it
    assert_eq!(HnswBook::new(2).fetch_sizes(usize::MAX / 2, 1000), (1000, 1000));
}

#[test]
fn hnsw_admitted_skips_tombstones_and_disallowed_up_to_k() {
    let mut b = HnswBook::new(2);
    b.record_remove(ChunkId::new(3));
    let ids = [5u64, 3, 8, 9, 4];
    assert_eq!(b.admitted(&ids, 10, None), vec![0, 2, 3, 4]);
    assert_eq!(b.admitted(&ids, 2, None), vec![0, 2]);
    let allowed = IdSet::from_slice(&[9, 4, 3]);
    assert_eq!(b.admitted(&ids, 10, Some(&allowed)), vec![3, 4]);
    assert!(b.admitted(&ids, 0, None).is_empty());
}

#[test]
fn idset_remove_keeps_the_rest() {
    let mut s = IdSet::from_slice(&[4, 1, 9]);
    s.remove(1);
    assert_eq!(s.to_vec(), vec![4, 9]);
    s.remove(42);
    assert_eq!(s.len(), 2);
    assert!(!s.contains(1));
}

#[test]
fn term_hits_skip_removed_and_disallowed_chunks() {
    let mut ix = LexicalIndex::new();
    ix.add(id(1), "rust verus rust");
    ix.add(id(2), "rust go");
    ix.add(id(3), "rust");
    ix.remove(id(3));
    let terms = vec!["rust".to_string(), "go".to_string(), "zig".to_string()];
    let all = ix.term_hits(&terms, None);
    assert_eq!(all[0], (3, vec![(id(1), 2, 3), (id(2), 1, 2)]));
    assert_eq!(all[1], (1, vec![(id(2), 1, 2)]));
    assert_eq!(all[2], (0, vec![]));
    let mut only = IdSet::new();
    only.insert(2);
    let some = ix.term_hits(&terms, Some(&only));
    assert_eq!(some[0], (3, vec![(id(2), 1, 2)]));
}

#[test]
fn try_add_indexes_like_add() {
    let mut ix = LexicalIndex::new();
    assert!(ix.try_add(id(4), "alfa beta alfa"));
    assert_eq!(ix.len(), 1);
    assert_eq!(ix.total_len(), 3);
    assert_eq!(ix.postings("alfa").unwrap(), &vec![(id(4), 2)]);
}
