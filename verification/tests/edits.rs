use nucleus::edits::{
    assignment, check_batch, edit_tag, has_tag, join_model, reindex_model, reindex_target, without_tag,
};
use nucleus::error::NucleusError;
use nucleus::id::{DomainId, SubdomainId, TagId};
use nucleus::model::{Domain, Tag};

fn tags(ids: &[u64]) -> Vec<TagId> {
    ids.iter().map(|i| TagId::new(*i)).collect()
}

#[test]
fn assignment_replaces_tags_and_moves_subdomain() {
    let current = tags(&[1, 2]);
    let (t, s) = assignment(&current, Some(SubdomainId::new(7)), Some(tags(&[3])), Some(SubdomainId::new(9)), true);
    assert_eq!(t, tags(&[3]));
    assert_eq!(s, Some(SubdomainId::new(9)));
}

#[test]
fn assignment_keeps_what_the_update_leaves_alone() {
    let current = tags(&[1, 2]);
    let (t, s) = assignment(&current, Some(SubdomainId::new(7)), None, Some(SubdomainId::new(9)), false);
    assert_eq!(t, tags(&[1, 2]));
    assert_eq!(s, Some(SubdomainId::new(7)));
}

#[test]
fn assignment_can_clear_the_subdomain() {
    let (t, s) = assignment(&tags(&[4]), Some(SubdomainId::new(7)), None, None, true);
    assert_eq!(t, tags(&[4]));
    assert_eq!(s, None);
}

#[test]
fn assignment_applied_twice_is_applied_once() {
    let start = tags(&[1]);
    let once = assignment(&start, None, Some(tags(&[5, 6])), Some(SubdomainId::new(2)), true);
    let twice = assignment(&once.0, once.1, Some(tags(&[5, 6])), Some(SubdomainId::new(2)), true);
    assert_eq!(once, twice);
}

#[test]
fn without_tag_removes_every_occurrence_in_order() {
    let t = tags(&[1, 2, 1, 3]);
    assert_eq!(without_tag(&t, TagId::new(1)), tags(&[2, 3]));
    assert_eq!(without_tag(&t, TagId::new(9)), t);
    assert!(without_tag(&tags(&[]), TagId::new(1)).is_empty());
}

#[test]
fn without_tag_twice_is_without_tag_once() {
    let t = tags(&[5, 1, 5]);
    let once = without_tag(&t, TagId::new(5));
    assert_eq!(without_tag(&once, TagId::new(5)), once);
}

#[test]
fn has_tag_finds_membership() {
    let t = tags(&[4, 8]);
    assert!(has_tag(&t, TagId::new(8)));
    assert!(!has_tag(&t, TagId::new(5)));
    assert!(!has_tag(&tags(&[]), TagId::new(5)));
}

fn label() -> Tag {
    Tag {
        id: TagId::new(3),
        domain_id: DomainId::new(1),
        name: "contracts".to_string(),
        display_name: "Contracts".to_string(),
        description: "legal".to_string(),
        parent: Some(TagId::new(2)),
        created_at: 42,
    }
}

#[test]
fn edit_tag_replaces_given_fields_only() {
    let t = edit_tag(label(), Some("Agreements"), None);
    assert_eq!(t.display_name, "Agreements");
    assert_eq!(t.description, "legal");
    assert_eq!(t.name, "contracts");
    assert_eq!(t.parent, Some(TagId::new(2)));
    assert_eq!(t.created_at, 42);
    let t = edit_tag(label(), None, Some("signed papers"));
    assert_eq!(t.display_name, "Contracts");
    assert_eq!(t.description, "signed papers");
}

#[test]
fn join_model_accepts_matching_domains() {
    let first = join_model(None, "e5", 384).unwrap();
    assert_eq!(first, ("e5".to_string(), 384));
    let second = join_model(Some(first), "e5", 384).unwrap();
    assert_eq!(second, ("e5".to_string(), 384));
}

#[test]
fn join_model_refuses_mixed_models() {
    let err = join_model(Some(("e5".to_string(), 384)), "bge", 384).unwrap_err();
    assert!(matches!(
        err,
        NucleusError::InvalidRequest(m) if m == "multi-domain search requires all domains to share the same model"
    ));
    assert!(matches!(join_model(Some(("e5".to_string(), 384)), "e5", 768), Err(NucleusError::InvalidRequest(_))));
}

fn domain() -> Domain {
    Domain { id: DomainId::new(1), name: "docs".to_string(), model: "e5".to_string(), dim: 384, created_at: 0 }
}

#[test]
fn reindex_model_prefers_the_requested_one() {
    assert_eq!(reindex_model("e5", Some("bge")), "bge");
    assert_eq!(reindex_model("e5", None), "e5");
}

#[test]
fn reindex_target_decides_the_rewrite() {
    let d = domain();
    assert_eq!(reindex_target(&d, "e5", Some(384)).unwrap(), (384, false));
    assert_eq!(reindex_target(&d, "bge", Some(384)).unwrap(), (384, true));
    assert_eq!(reindex_target(&d, "e5", Some(768)).unwrap(), (768, true));
    assert!(matches!(reindex_target(&d, "nope", None), Err(NucleusError::ModelNotFound(m)) if m == "nope"));
}

#[test]
fn check_batch_requires_one_vector_per_text() {
    assert!(check_batch(3, 3).is_ok());
    assert!(matches!(
        check_batch(3, 2),
        Err(NucleusError::Embedding(m)) if m == "reindex: embedder returned a different number of vectors than inputs"
    ));
}
