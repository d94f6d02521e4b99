//! `nucleus` — the verified core of a RAG-oriented database engine: identifiers,
//! authorization, chunking, the filter query language, text extraction, the
//! lexical and quantised vector index bookkeeping, crypto helpers and backup
//! planning.

pub mod id;
pub mod error;
pub mod auth;
pub mod text;
pub mod model;
pub mod query;
pub mod chunking;
pub mod extract;
pub mod util;
pub mod crypto;
pub mod index;
pub mod backup;
pub mod server;
pub mod idset;
pub mod engine;
pub mod jobs;
pub mod embed;
pub mod rerank;
pub mod requests;
pub mod store;
pub mod edits;
pub mod batch;
