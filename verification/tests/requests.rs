use nucleus::error::NucleusError;
use nucleus::id::{SubdomainId, TagId};
use nucleus::jobs::JobBody;
use nucleus::requests::{
    comma_ids, comma_list, dedup_content, default_context, default_k, default_limit, ingest_body,
    page_limit, resolve_name_filters, trimmed_name,
};
use nucleus::util::sha256_hex;

#[test]
fn request_defaults_and_caps() {
    assert_eq!(default_k(), 10);
    assert_eq!(default_limit(), 50);
    assert_eq!(default_context(), 1);
    assert_eq!(page_limit(20), 20);
    assert_eq!(page_limit(501), 500);
}

#[test]
fn comma_separated_labels_and_tags() {
    assert_eq!(comma_list(Some(" legal, ,fiscal ,")), vec!["legal", "fiscal"]);
    assert!(comma_list(None).is_empty());
    assert_eq!(comma_ids(Some("3, x, 42,,+7")), vec![3, 42, 7]);
    assert!(comma_ids(None).is_empty());
    assert!(comma_ids(Some("-1")).is_empty());
}

#[test]
fn names_are_trimmed_or_absent() {
    assert_eq!(trimmed_name(Some("  laboral ".to_string())).as_deref(), Some("laboral"));
    assert!(trimmed_name(Some("   ".to_string())).is_none());
    assert!(trimmed_name(None).is_none());
}

#[test]
fn ingest_bodies_from_requests() {
    assert!(matches!(
        ingest_body(Some(vec!["a".to_string()]), Some("t".to_string())),
        Ok(JobBody::Chunks(c)) if c == vec!["a".to_string()]
    ));
    assert!(matches!(ingest_body(None, Some("t".to_string())), Ok(JobBody::Text(t)) if t == "t"));
    assert!(matches!(
        ingest_body(None, None),
        Err(NucleusError::InvalidRequest(m)) if m == "provide `text` or `chunks`"
    ));
}

#[test]
fn duplicate_detection_content() {
    assert_eq!(dedup_content(&JobBody::Text("hola".to_string())), "hola");
    assert_eq!(
        dedup_content(&JobBody::Chunks(vec!["a".to_string(), "b".to_string(), "c".to_string()])),
        "a\nb\nc"
    );
    assert_eq!(dedup_content(&JobBody::Chunks(vec![])), "");
    assert_eq!(
        sha256_hex(b"abc"),
        "ba7816bf8f01cfea414140de5dae2223b00361a396177a9cb410ff61f20015ad"
    );
}

#[test]
fn name_filters_resolve_without_creating() {
    let t = |n| Some(TagId(n));
    // An unknown label among several, matched by any, is dropped.
    assert_eq!(resolve_name_filters(&vec![t(1), None, t(3)], false, None), Some((vec![TagId(1), TagId(3)], None)));
    // It leaves nothing to match when all labels must match, or when it is the only one.
    assert_eq!(resolve_name_filters(&vec![t(1), None], true, None), None);
    assert_eq!(resolve_name_filters(&vec![None], false, None), None);
    // An unknown subdomain leaves nothing to match; a known one is kept.
    assert_eq!(resolve_name_filters(&vec![], false, Some(None)), None);
    assert_eq!(
        resolve_name_filters(&vec![t(2)], true, Some(Some(SubdomainId(9)))),
        Some((vec![TagId(2)], Some(SubdomainId(9))))
    );
}
