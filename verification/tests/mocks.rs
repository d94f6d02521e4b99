use nucleus::embed::MockEmbedder;
use nucleus::rerank::MockReranker;

fn embed(e: &MockEmbedder, text: &str) -> Vec<f32> {
    e.bucket_counts(text).into_iter().map(|n| n as f32).collect()
}

#[test]
fn shared_words_increase_similarity() {
    let e = MockEmbedder::new(64);
    let a = embed(&e, "el contrato laboral");
    let q = embed(&e, "contrato laboral");
    let unrelated = embed(&e, "pizza con piña");
    let dot = |x: &[f32], y: &[f32]| x.iter().zip(y).map(|(a, b)| a * b).sum::<f32>();
    assert!(dot(&a, &q) > dot(&a, &unrelated));
}

#[test]
fn bucket_counts_are_fnv1a_of_lowercased_words() {
    let e = MockEmbedder::new(8);
    let v = e.bucket_counts("Hola hola\tHOLA");
    assert_eq!(v.len(), 8);
    assert_eq!(v.iter().sum::<u64>(), 3);
    let mut h: u64 = 0xcbf29ce484222325;
    for b in "hola".bytes() {
        h ^= b as u64;
        h = h.wrapping_mul(0x100000001b3);
    }
    assert_eq!(v[(h % 8) as usize], 3);
    assert_eq!(MockEmbedder::new(0).dim(), 1);
    assert_eq!(MockEmbedder::default().dim(), 32);
}

#[test]
fn mock_orders_by_overlap() {
    let rr = MockReranker::new();
    let docs = vec!["disposiciones generales".to_string(), "el artículo 14 sobre vacaciones".to_string()];
    let scores = rr.overlap_scores("artículo 14 vacaciones", &docs);
    assert!(scores[1] > scores[0]);
    assert_eq!(scores, vec![0, 3]);
}

#[test]
fn overlap_counts_distinct_query_terms() {
    let rr = MockReranker::new();
    let docs = vec!["Contrato contrato".to_string()];
    assert_eq!(rr.overlap_scores("contrato CONTRATO laboral", &docs), vec![1]);
    assert!(rr.overlap_scores("x", &[]).is_empty());
}
