use nucleus::chunking::FixedSizeChunker;
use nucleus::engine::{
    check_dimension, search_plan, SearchPlan, MAX_K, eval_filter, filter_leaves, find_subslice, ingest_texts, narrow, snippet, FilterLeaf, IngestBody,
};
use nucleus::error::NucleusError;
use nucleus::idset::IdSet;
use nucleus::query::parse;

fn set(ids: &[u64]) -> IdSet {
    IdSet::from_slice(ids)
}

fn sorted(s: &IdSet) -> Vec<u64> {
    let mut v = s.to_vec();
    v.sort();
    v
}

#[test]
fn finds_first_occurrence() {
    let h: Vec<char> = "abcabc".chars().collect();
    assert_eq!(find_subslice(&h, &['b', 'c']), Some(1));
    assert_eq!(find_subslice(&h, &['c', 'a']), Some(2));
    assert_eq!(find_subslice(&h, &['x']), None);
    assert_eq!(find_subslice(&h, &[]), None);
    assert_eq!(find_subslice(&['a'], &['a', 'b']), None);
}

#[test]
fn snippet_centres_on_earliest_match() {
    let text = "El contrato laboral indefinido regula la relación entre las partes.";
    assert_eq!(snippet(text, "LABORAL", 5).unwrap(), "…rato labor…");
    assert_eq!(snippet(text, "partes contrato", 3).unwrap(), "El con…");
    assert_eq!(snippet("abc", "ab", 10).unwrap(), "abc");
    assert!(snippet(text, "a b", 5).is_none());
    assert!(snippet(text, "pizza", 5).is_none());
    assert!(snippet(text, "", 5).is_none());
}

#[test]
fn ingest_bodies() {
    let c = FixedSizeChunker::new(1000, 200);
    let given = ingest_texts(IngestBody::Chunks(vec!["uno".to_string(), "dos".to_string()]), &c);
    assert_eq!(given, vec!["uno", "dos"]);
    let split = ingest_texts(IngestBody::Text("  hola mundo ".to_string()), &c);
    assert_eq!(split, vec!["hola mundo"]);
    assert!(ingest_texts(IngestBody::Text("   ".to_string()), &c).is_empty());
}

#[test]
fn candidate_sets_narrow_by_intersection() {
    let acc = narrow(None, set(&[1, 2, 3]));
    assert_eq!(sorted(acc.as_ref().unwrap()), vec![1, 2, 3]);
    let acc = narrow(acc, set(&[2, 3, 4]));
    assert_eq!(sorted(acc.as_ref().unwrap()), vec![2, 3]);
    let acc = narrow(acc, set(&[9]));
    assert!(acc.unwrap().to_vec().is_empty());
}

#[test]
fn filter_leaves_in_order() {
    let e = parse("tag:a OR (doc:7 AND NOT meta.lang:es)").unwrap();
    let leaves = filter_leaves(&e);
    assert_eq!(leaves.len(), 3);
    assert!(matches!(&leaves[0], FilterLeaf::Tag(n) if n == "a"));
    assert!(matches!(&leaves[1], FilterLeaf::Doc(7)));
    assert!(matches!(&leaves[2], FilterLeaf::Meta(k, v) if k == "lang" && v == "es"));
}

#[test]
fn filter_resolves_with_set_algebra() {
    let universe = set(&[1, 2, 3, 4, 5]);
    // tag:a -> {1,2}; doc:7 -> {2,3,4}; meta.lang:es -> {3}
    let e = parse("tag:a OR (doc:7 AND NOT meta.lang:es)").unwrap();
    let leaves = vec![set(&[1, 2]), set(&[2, 3, 4]), set(&[3])];
    assert_eq!(sorted(&eval_filter(&e, &leaves, &universe)), vec![1, 2, 4]);
    let e = parse("NOT tag:a").unwrap();
    assert_eq!(sorted(&eval_filter(&e, &vec![set(&[1, 2])], &universe)), vec![3, 4, 5]);
}

#[test]
fn id_sets() {
    let mut s = IdSet::new();
    s.insert(5);
    s.insert(5);
    s.insert(1);
    assert_eq!(s.len(), 2);
    assert!(s.contains(5) && !s.contains(2));
    let t = set(&[1, 9]);
    assert_eq!(sorted(&s.union(&t)), vec![1, 5, 9]);
    assert_eq!(sorted(&s.minus(&t)), vec![5]);
    assert_eq!(sorted(&s.intersect(&t)), vec![1]);
}

#[test]
fn search_plans() {
    assert_eq!(search_plan(10, false, false, 20), SearchPlan { k: 10, fetch: 50, window: 10 });
    assert_eq!(search_plan(10, true, false, 20), SearchPlan { k: 10, fetch: 50, window: 20 });
    assert_eq!(search_plan(10, true, false, 500), SearchPlan { k: 10, fetch: 50, window: 50 });
    assert_eq!(search_plan(30, true, false, 5), SearchPlan { k: 30, fetch: 150, window: 30 });
    assert_eq!(search_plan(30, false, true, 5), SearchPlan { k: 30, fetch: 150, window: 150 });
    assert_eq!(search_plan(5000, false, false, 0), SearchPlan { k: MAX_K, fetch: 5000, window: 1000 });
    assert!(check_dimension(3, 3).is_ok());
    assert!(matches!(check_dimension(3, 2), Err(NucleusError::DimensionMismatch { expected: 3, got: 2 })));
}
