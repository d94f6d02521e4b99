//! Typed identifiers: one newtype over `u64` per entity, so a document id
//! cannot be passed where a domain id is expected.

use vstd::prelude::*;

verus! {

/// Identifies a domain (namespace/collection).
#[derive(Debug, Clone, Copy, PartialEq, Eq, Structural, PartialOrd, Ord, Hash)]
pub struct DomainId(pub u64);

/// Identifies a document within a domain.
#[derive(Debug, Clone, Copy, PartialEq, Eq, Structural, PartialOrd, Ord, Hash)]
pub struct DocumentId(pub u64);

/// Identifies a chunk within a document.
#[derive(Debug, Clone, Copy, PartialEq, Eq, Structural, PartialOrd, Ord, Hash)]
pub struct ChunkId(pub u64);

/// Identifies a subdomain (a topic within a domain).
#[derive(Debug, Clone, Copy, PartialEq, Eq, Structural, PartialOrd, Ord, Hash)]
pub struct SubdomainId(pub u64);

/// Identifies a tag (label) within a domain's taxonomy.
#[derive(Debug, Clone, Copy, PartialEq, Eq, Structural, PartialOrd, Ord, Hash)]
pub struct TagId(pub u64);

/// Identifies a background job.
#[derive(Debug, Clone, Copy, PartialEq, Eq, Structural, PartialOrd, Ord, Hash)]
pub struct JobId(pub u64);

/// Identifies an API token.
#[derive(Debug, Clone, Copy, PartialEq, Eq, Structural, PartialOrd, Ord, Hash)]
pub struct TokenId(pub u64);

impl DomainId {
    /// Construct from a raw `u64`.
    pub fn new(value: u64) -> (r: Self)
        ensures r.0 == value,
    {
        DomainId(value)
    }

    /// The underlying `u64`.
    pub fn get(self) -> (r: u64)
        ensures r == self.0,
    {
        self.0
    }
}

impl DocumentId {
    /// Construct from a raw `u64`.
    pub fn new(value: u64) -> (r: Self)
        ensures r.0 == value,
    {
        DocumentId(value)
    }

    /// The underlying `u64`.
    pub fn get(self) -> (r: u64)
        ensures r == self.0,
    {
        self.0
    }
}

impl ChunkId {
    /// Construct from a raw `u64`.
    pub fn new(value: u64) -> (r: Self)
        ensures r.0 == value,
    {
        ChunkId(value)
    }

    /// The underlying `u64`.
    pub fn get(self) -> (r: u64)
        ensures r == self.0,
    {
        self.0
    }
}

impl SubdomainId {
    /// Construct from a raw `u64`.
    pub fn new(value: u64) -> (r: Self)
        ensures r.0 == value,
    {
        SubdomainId(value)
    }

    /// The underlying `u64`.
    pub fn get(self) -> (r: u64)
        ensures r == self.0,
    {
        self.0
    }
}

impl TagId {
    /// Construct from a raw `u64`.
    pub fn new(value: u64) -> (r: Self)
        ensures r.0 == value,
    {
        TagId(value)
    }

    /// The underlying `u64`.
    pub fn get(self) -> (r: u64)
        ensures r == self.0,
    {
        self.0
    }
}

impl JobId {
    /// Construct from a raw `u64`.
    pub fn new(value: u64) -> (r: Self)
        ensures r.0 == value,
    {
        JobId(value)
    }

    /// The underlying `u64`.
    pub fn get(self) -> (r: u64)
        ensures r == self.0,
    {
        self.0
    }
}

impl TokenId {
    /// Construct from a raw `u64`.
    pub fn new(value: u64) -> (r: Self)
        ensures r.0 == value,
    {
        TokenId(value)
    }

    /// The underlying `u64`.
    pub fn get(self) -> (r: u64)
        ensures r == self.0,
    {
        self.0
    }
}

} // verus!
