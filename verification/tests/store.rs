use nucleus::error::NucleusError;
use nucleus::id::{ChunkId, DocumentId, DomainId, SubdomainId, TagId};
use nucleus::idset::IdSet;
use nucleus::store::{
    chunk_records, domain_key_prefix, has_prefix, meta_key, name_key, neighbours, next_seq_value,
    page_bounds, schema_action, tag_candidates, SchemaAction,
};

#[test]
fn index_keys() {
    assert_eq!(meta_key("lang", "es"), "lang\u{1f}es");
    assert_ne!(meta_key("a", "bc"), meta_key("ab", "c"));
    assert_eq!(name_key(DomainId::new(42), "legal"), "42\u{1f}legal");
    assert_eq!(domain_key_prefix(DomainId::new(7)), "7\u{1f}");
    assert!(has_prefix("7\u{1f}legal", "7\u{1f}"));
    assert!(!has_prefix("77\u{1f}legal", "7\u{1f}"));
    assert!(!has_prefix("7", "7\u{1f}"));
}

#[test]
fn sequences_and_pages() {
    assert_eq!(next_seq_value(None), 1);
    assert_eq!(next_seq_value(Some(41)), 42);
    assert_eq!(page_bounds(10, 2, 3), (2, 5));
    assert_eq!(page_bounds(10, 8, 5), (8, 10));
    assert_eq!(page_bounds(10, 20, 5), (10, 10));
    assert_eq!(page_bounds(10, 0, usize::MAX), (0, 10));
}

#[test]
fn schema_versions() {
    assert_eq!(schema_action(None).unwrap(), SchemaAction::Stamp);
    assert_eq!(schema_action(Some(1)).unwrap(), SchemaAction::Current);
    assert_eq!(schema_action(Some(0)).unwrap(), SchemaAction::Migrate(0));
    assert!(matches!(
        schema_action(Some(3)),
        Err(NucleusError::InvalidRequest(m)) if m == "database schema v3 is newer than supported v1; upgrade Nucleus"
    ));
}

#[test]
fn tag_candidate_combination() {
    let sets = vec![IdSet::from_slice(&[1, 2, 3]), IdSet::from_slice(&[2, 3, 4])];
    let mut all = tag_candidates(&sets, true).unwrap().to_vec();
    all.sort();
    assert_eq!(all, vec![2, 3]);
    let mut any = tag_candidates(&sets, false).unwrap().to_vec();
    any.sort();
    assert_eq!(any, vec![1, 2, 3, 4]);
    assert!(tag_candidates(&vec![], true).is_none());
}

#[test]
fn chunk_records_are_chained_in_order() {
    let ids = [ChunkId::new(10), ChunkId::new(11), ChunkId::new(12)];
    let texts = vec!["a".to_string(), "b".to_string(), "c".to_string()];
    let meta = vec![("lang".to_string(), "es".to_string())];
    let recs = chunk_records(
        &ids,
        DocumentId::new(5),
        DomainId::new(1),
        Some(SubdomainId::new(2)),
        &vec![TagId::new(9)],
        &meta,
        &texts,
    );
    assert_eq!(recs.len(), 3);
    assert_eq!(recs[0].prev, None);
    assert_eq!(recs[0].next, Some(ChunkId::new(11)));
    assert_eq!(recs[1].prev, Some(ChunkId::new(10)));
    assert_eq!(recs[2].next, None);
    assert_eq!(recs[2].ordinal, 2);
    assert_eq!(recs[1].text, "b");
    assert_eq!(recs[1].metadata, meta);
    assert_eq!(recs[1].tags, vec![TagId::new(9)]);
    assert_eq!(neighbours(&ids, 1), (Some(ChunkId::new(10)), Some(ChunkId::new(12))));
}

#[test]
fn metadata_keeps_each_key_once_with_its_last_value_in_key_order() {
    let pairs = vec![
        ("lang".to_string(), "en".to_string()),
        ("area".to_string(), "ops".to_string()),
        ("lang".to_string(), "es".to_string()),
    ];
    let md = nucleus::model::metadata_from_pairs(&pairs);
    assert_eq!(md, vec![("area".to_string(), "ops".to_string()), ("lang".to_string(), "es".to_string())]);
    assert_eq!(nucleus::model::meta_get(&md, "lang").map(String::as_str), Some("es"));
    assert!(nucleus::model::meta_get(&md, "missing").is_none());
}

#[test]
fn metadata_orders_keys_as_strings_do() {
    let pairs: Vec<(String, String)> =
        ["b", "a", "ab", "B", "é", "a"].iter().enumerate().map(|(i, k)| (k.to_string(), i.to_string())).collect();
    let md = nucleus::model::metadata_from_pairs(&pairs);
    let keys: Vec<&str> = md.iter().map(|(k, _)| k.as_str()).collect();
    assert_eq!(keys, vec!["B", "a", "ab", "b", "é"]);
    assert_eq!(md[1].1, "5");
}
