use nucleus::chunking::{Chunker, FixedSizeChunker};

#[test]
fn empty_text_yields_no_chunks() {
    assert!(FixedSizeChunker::default().chunk("").is_empty());
    assert!(FixedSizeChunker::default().chunk("   ").is_empty());
}

#[test]
fn windows_with_overlap() {
    let c = FixedSizeChunker::new(4, 2);
    // "abcdefgh" -> [abcd, cdef, efgh, ...]
    let chunks = c.chunk("abcdefgh");
    assert_eq!(chunks[0], "abcd");
    assert_eq!(chunks[1], "cdef");
    assert_eq!(chunks[2], "efgh");
}

#[test]
fn short_text_is_single_chunk() {
    let c = FixedSizeChunker::new(1000, 200);
    assert_eq!(c.chunk("hola mundo"), vec!["hola mundo".to_string()]);
}

#[test]
fn breaks_on_sentence_boundary_not_mid_word() {
    let c = FixedSizeChunker::new(24, 4);
    let text = "Primera frase corta. Segunda parte.";
    let chunks = c.chunk(text);
    assert_eq!(chunks[0], "Primera frase corta.");
    for ch in &chunks {
        assert!(!ch.ends_with("Segund"));
    }
}

#[test]
fn falls_back_to_whitespace_when_no_sentence_break() {
    let c = FixedSizeChunker::new(12, 2);
    let chunks = c.chunk("alpha bravo charlie delta");
    for ch in &chunks {
        assert!(!ch.starts_with(' ') && !ch.ends_with(' '));
    }
    assert!(chunks.iter().any(|c| c.contains("alpha")));
    assert!(chunks.iter().any(|c| c.contains("delta")));
}

#[test]
fn long_unbreakable_token_still_progresses() {
    let c = FixedSizeChunker::new(4, 2);
    let chunks = c.chunk(&"x".repeat(20));
    assert!(!chunks.is_empty());
    assert!(chunks.iter().all(|s| s.chars().all(|ch| ch == 'x')));
}

#[test]
fn new_clamps_size_and_overlap() {
    let c = FixedSizeChunker::new(0, 5);
    assert_eq!((c.size, c.overlap), (1, 0));
    let c = FixedSizeChunker::new(10, 50);
    assert_eq!((c.size, c.overlap), (10, 9));
    let d = FixedSizeChunker::default();
    assert_eq!((d.size, d.overlap), (1000, 200));
}

#[test]
fn chunks_never_exceed_the_window() {
    let c = FixedSizeChunker::new(7, 3);
    let text = "uno dos tres. cuatro cinco! seis siete ocho nueve diez";
    for ch in c.chunk(text) {
        assert!(ch.chars().count() <= 7);
        assert!(!ch.is_empty());
    }
}

#[test]
fn multibyte_characters_count_as_one() {
    let c = FixedSizeChunker::new(3, 0);
    assert_eq!(c.chunk("ñañaña"), vec!["ñañ".to_string(), "aña".to_string()]);
}

#[test]
fn windows_cut_after_whitespace_in_the_lookback_tail() {
    let c = FixedSizeChunker::new(12, 0);
    assert_eq!(c.chunk("hello world again and more"), vec!["hello world", "again and", "more"]);
}
