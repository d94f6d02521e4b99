//! The crate-wide error type.

use vstd::prelude::*;

use crate::id::{ChunkId, DocumentId, DomainId, JobId, SubdomainId, TagId};
use crate::util::{dec_digits, push_digits};

verus! {

broadcast use vstd::string::group_string_axioms;

/// Every fallible operation of the library returns this error.
#[derive(Debug)]
pub enum NucleusError {
    /// An embedding model was requested but is not registered/available.
    ModelNotFound(String),
    /// No domain exists with the given id.
    DomainNotFound(DomainId),
    /// No document exists with the given id.
    DocumentNotFound(DocumentId),
    /// No subdomain exists with the given id.
    SubdomainNotFound(SubdomainId),
    /// No chunk exists with the given id.
    ChunkNotFound(ChunkId),
    /// No tag exists with the given id.
    TagNotFound(TagId),
    /// No job exists with the given id.
    JobNotFound(JobId),
    /// The embedding backend failed (its message is kept).
    Embedding(String),
    /// A vector did not match the dimension expected by the domain/index.
    DimensionMismatch { expected: usize, got: usize },
    /// The persistent store failed (its message is kept).
    Storage(String),
    /// A value could not be encoded for storage (the encoder's message is kept).
    Encode(String),
    /// A stored value could not be decoded (the decoder's message is kept).
    Decode(String),
    /// A cryptographic operation failed or its input was malformed.
    Crypto(String),
    /// An I/O operation failed (its message is kept).
    Io(String),
    /// The request carried no valid credentials.
    Unauthorized,
    /// The credentials are valid but lack the required scope.
    Forbidden,
    /// The request was malformed or violated an invariant.
    InvalidRequest(String),
}

/// The human-readable message of an error.
pub open spec fn message_spec(e: NucleusError) -> Seq<char> {
    match e {
        NucleusError::ModelNotFound(m) => "model not found: "@ + m@,
        NucleusError::DomainNotFound(id) => "domain not found: "@ + dec_digits(id.0 as nat),
        NucleusError::DocumentNotFound(id) => "document not found: "@ + dec_digits(id.0 as nat),
        NucleusError::SubdomainNotFound(id) => "subdomain not found: "@ + dec_digits(id.0 as nat),
        NucleusError::ChunkNotFound(id) => "chunk not found: "@ + dec_digits(id.0 as nat),
        NucleusError::TagNotFound(id) => "tag not found: "@ + dec_digits(id.0 as nat),
        NucleusError::JobNotFound(id) => "job not found: "@ + dec_digits(id.0 as nat),
        NucleusError::Embedding(_) => "embedding backend failed"@,
        NucleusError::DimensionMismatch { expected, got } => "dimension mismatch: expected "@
            + dec_digits(expected as nat) + ", got "@ + dec_digits(got as nat),
        NucleusError::Storage(_) => "storage error"@,
        NucleusError::Encode(_) => "failed to encode value"@,
        NucleusError::Decode(_) => "failed to decode value"@,
        NucleusError::Crypto(m) => "crypto error: "@ + m@,
        NucleusError::Io(_) => "i/o error"@,
        NucleusError::Unauthorized => "unauthorized"@,
        NucleusError::Forbidden => "forbidden"@,
        NucleusError::InvalidRequest(m) => "invalid request: "@ + m@,
    }
}

/// The HTTP status an error is answered with: 404 for a missing entity, 401
/// and 403 for authentication and authorization, 400 for a bad request, 500
/// for everything else.
pub open spec fn status_spec(e: NucleusError) -> u16 {
    match e {
        NucleusError::DomainNotFound(_) | NucleusError::DocumentNotFound(_) | NucleusError::ChunkNotFound(_)
        | NucleusError::TagNotFound(_) | NucleusError::JobNotFound(_) => 404,
        NucleusError::Unauthorized => 401,
        NucleusError::Forbidden => 403,
        NucleusError::ModelNotFound(_) | NucleusError::InvalidRequest(_) | NucleusError::DimensionMismatch { .. } => 400,
        _ => 500,
    }
}

fn with_id(prefix: &str, id: u64) -> (r: String)
    ensures r@ == prefix@ + dec_digits(id as nat),
{
    let mut s = prefix.to_owned();
    push_digits(&mut s, id);
    s
}

fn with_text(prefix: &str, text: &String) -> (r: String)
    ensures r@ == prefix@ + text@,
{
    let mut s = prefix.to_owned();
    s.append(text.as_str());
    s
}

impl NucleusError {
    /// Shorthand for an `InvalidRequest` carrying `msg`.
    pub fn invalid(msg: String) -> (r: Self)
        ensures r == NucleusError::InvalidRequest(msg),
    {
        NucleusError::InvalidRequest(msg)
    }

    /// Shorthand for an `Embedding` failure carrying `msg`.
    pub fn embedding_msg(msg: String) -> (r: Self)
        ensures r == NucleusError::Embedding(msg),
    {
        NucleusError::Embedding(msg)
    }

    /// The human-readable message of this error.
    pub fn message(&self) -> (r: String)
        ensures r@ == message_spec(*self),
    {
        match self {
            NucleusError::ModelNotFound(m) => with_text("model not found: ", m),
            NucleusError::DomainNotFound(id) => with_id("domain not found: ", id.0),
            NucleusError::DocumentNotFound(id) => with_id("document not found: ", id.0),
            NucleusError::SubdomainNotFound(id) => with_id("subdomain not found: ", id.0),
            NucleusError::ChunkNotFound(id) => with_id("chunk not found: ", id.0),
            NucleusError::TagNotFound(id) => with_id("tag not found: ", id.0),
            NucleusError::JobNotFound(id) => with_id("job not found: ", id.0),
            NucleusError::Embedding(_) => "embedding backend failed".to_owned(),
            NucleusError::DimensionMismatch { expected, got } => {
                let mut s = with_id("dimension mismatch: expected ", *expected as u64);
                s.append(", got ");
                push_digits(&mut s, *got as u64);
                s
            },
            NucleusError::Storage(_) => "storage error".to_owned(),
            NucleusError::Encode(_) => "failed to encode value".to_owned(),
            NucleusError::Decode(_) => "failed to decode value".to_owned(),
            NucleusError::Crypto(m) => with_text("crypto error: ", m),
            NucleusError::Io(_) => "i/o error".to_owned(),
            NucleusError::Unauthorized => "unauthorized".to_owned(),
            NucleusError::Forbidden => "forbidden".to_owned(),
            NucleusError::InvalidRequest(m) => with_text("invalid request: ", m),
        }
    }

    /// The HTTP status this error is answered with (see `status_spec`).
    pub fn http_status(&self) -> (r: u16)
        ensures r == status_spec(*self),
    {
        match self {
            NucleusError::DomainNotFound(_) | NucleusError::DocumentNotFound(_) | NucleusError::ChunkNotFound(_)
            | NucleusError::TagNotFound(_) | NucleusError::JobNotFound(_) => 404,
            NucleusError::Unauthorized => 401,
            NucleusError::Forbidden => 403,
            NucleusError::ModelNotFound(_) | NucleusError::InvalidRequest(_)
            | NucleusError::DimensionMismatch { .. } => 400,
            _ => 500,
        }
    }

    /// The message an API client sees: the error's own for client errors, a
    /// generic one for internal failures (whose details stay server-side).
    pub fn public_message(&self) -> (r: String)
        ensures r@ == if status_spec(*self) == 500 { "internal error"@ } else { message_spec(*self) },
    {
        if self.http_status() == 500 { "internal error".to_owned() } else { self.message() }
    }
}

} // verus!
