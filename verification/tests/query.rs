use nucleus::error::NucleusError;
use nucleus::id::{ChunkId, DocumentId, DomainId, TagId};
use nucleus::model::Chunk;
use nucleus::query::{parse, Expr, TagNames};

fn parses(s: &str) -> Expr {
    parse(s).unwrap()
}

#[test]
fn precedence_and_over_or() {
    let e = parses("tag:a OR tag:b AND tag:c");
    assert_eq!(
        e,
        Expr::Or(
            Box::new(Expr::Tag("a".into())),
            Box::new(Expr::And(
                Box::new(Expr::Tag("b".into())),
                Box::new(Expr::Tag("c".into())),
            )),
        )
    );
}

#[test]
fn parens_quotes_and_fields() {
    assert_eq!(parses("doc:42"), Expr::Doc(42));
    assert_eq!(parses("meta.lang:es"), Expr::Meta("lang".into(), "es".into()));
    assert_eq!(parses("tag:\"contrato marco\""), Expr::Tag("contrato marco".into()));
    let e = parses("(tag:a OR tag:b) AND NOT tag:c");
    assert!(matches!(e, Expr::And(_, _)));
}

#[test]
fn rejects_malformed() {
    assert!(parse("tag legal").is_err());
    assert!(parse("doc:abc").is_err());
    assert!(parse("(tag:a").is_err());
    assert!(parse("").is_err());
    assert!(parse("weird:x").is_err());
}

fn sample_chunk() -> Chunk {
    Chunk {
        id: ChunkId::new(1),
        document_id: DocumentId::new(7),
        domain_id: DomainId::new(1),
        subdomain_id: None,
        ordinal: 0,
        text: String::new(),
        tags: vec![TagId::new(10)],
        metadata: vec![("lang".to_string(), "es".to_string())],
        prev: None,
        next: None,
    }
}

#[test]
fn evaluation() {
    let chunk = sample_chunk();
    let mut names = TagNames::new();
    names.insert("legal".to_string(), TagId::new(10));
    names.insert("draft".to_string(), TagId::new(11));

    assert!(parses("tag:legal").matches(&chunk, &names));
    assert!(!parses("tag:draft").matches(&chunk, &names));
    assert!(parses("tag:legal AND meta.lang:es").matches(&chunk, &names));
    assert!(!parses("tag:legal AND meta.lang:en").matches(&chunk, &names));
    assert!(parses("tag:draft OR doc:7").matches(&chunk, &names));
    assert!(parses("NOT tag:draft").matches(&chunk, &names));
}

#[test]
fn keywords_are_case_insensitive_and_fields_too() {
    assert_eq!(
        parses("TAG:a and not Doc:3"),
        Expr::And(Box::new(Expr::Tag("a".into())), Box::new(Expr::Not(Box::new(Expr::Doc(3)))))
    );
    assert_eq!(parses("META.Lang:x"), Expr::Meta("Lang".into(), "x".into()));
}

#[test]
fn doc_numbers_follow_u64_parsing() {
    assert_eq!(parses("doc:+5"), Expr::Doc(5));
    assert_eq!(parses("doc:18446744073709551615"), Expr::Doc(u64::MAX));
    assert!(parse("doc:18446744073709551616").is_err());
    assert!(parse("doc:-1").is_err());
    assert!(parse("doc:+").is_err());
    assert!(parse("doc:").is_err());
}

#[test]
fn each_error_is_an_invalid_request() {
    for bad in ["tag:\"open", "meta.:x", "tag:a OR", "tag:a tag:b", ")", "AND"] {
        assert!(matches!(parse(bad), Err(nucleus::error::NucleusError::InvalidRequest(_))), "{bad}");
    }
}

#[test]
fn unknown_tag_name_never_matches() {
    let chunk = sample_chunk();
    let names = TagNames::new();
    assert!(!parses("tag:legal").matches(&chunk, &names));
    assert!(parses("NOT tag:legal").matches(&chunk, &names));
}

fn message(input: &str) -> String {
    match parse(input) {
        Err(NucleusError::InvalidRequest(m)) => m,
        _ => panic!("expected a refused filter"),
    }
}

#[test]
fn refusals_name_the_first_problem() {
    assert_eq!(message(""), "query: empty query");
    assert_eq!(message("   "), "query: empty query");
    assert_eq!(message("tag legal"), "query: expected `field:value`, found `tag`");
    assert_eq!(message("tag:\"open"), "query: unterminated quoted string");
    assert_eq!(message("doc:abc"), "query: `doc` id must be a number, found `abc`");
    assert_eq!(message("meta.:es"), "query: `meta.` needs a key, e.g. `meta.lang:es`");
    assert_eq!(message("weird:x"), "query: unknown field `weird` (use tag, doc, meta.*)");
    assert_eq!(message("(tag:a"), "query: expected `)`");
    assert_eq!(message("tag:a AND"), "query: unexpected token: None");
    assert_eq!(message(") tag:a"), "query: unexpected token: Some(RParen)");
    assert_eq!(message("AND tag:a"), "query: unexpected token: Some(And)");
    assert_eq!(message("tag:a OR OR tag:b"), "query: unexpected token: Some(Or)");
    assert_eq!(message("NOT NOT"), "query: unexpected token: None");
    assert_eq!(message("tag:a tag:b"), "query: unexpected trailing input");
}
