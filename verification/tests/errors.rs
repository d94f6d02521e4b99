use nucleus::error::NucleusError;
use nucleus::id::{DocumentId, DomainId};

#[test]
fn error_messages() {
    assert_eq!(NucleusError::DomainNotFound(DomainId::new(7)).message(), "domain not found: 7");
    assert_eq!(
        NucleusError::DimensionMismatch { expected: 3, got: 2 }.message(),
        "dimension mismatch: expected 3, got 2"
    );
    assert_eq!(NucleusError::invalid("x".to_string()).message(), "invalid request: x");
    assert_eq!(NucleusError::Unauthorized.message(), "unauthorized");
}

#[test]
fn http_statuses() {
    assert_eq!(NucleusError::DocumentNotFound(DocumentId::new(1)).http_status(), 404);
    assert_eq!(NucleusError::Unauthorized.http_status(), 401);
    assert_eq!(NucleusError::Forbidden.http_status(), 403);
    assert_eq!(NucleusError::ModelNotFound("m".to_string()).http_status(), 400);
    assert_eq!(NucleusError::Storage("disk".to_string()).http_status(), 500);
    assert_eq!(NucleusError::Storage("disk".to_string()).public_message(), "internal error");
    assert_eq!(NucleusError::Forbidden.public_message(), "forbidden");
}
