# nucleus

A retrieval database engine for RAG workloads: domains of documents split into
chunks, hybrid (dense + BM25) search with label, subdomain and query-language
filters, background ingestion jobs, API tokens with per-domain scopes, and
full/differential backups.

This build serves the engine over HTTP only; it has no C ABI for embedding. It
links no model runtime either: the dense side of search uses the library's
deterministic bag-of-words embedder (and, where reranking is on, its term-overlap
reranker) for every domain, in place of downloaded neural models.

## Layout

- `src/` — the library, verified with Verus. Every function carries a contract
  over mathematical models (`Seq`, `Set`, `Map`, `int`), and the properties that
  span several operations are stated and proved as lemmas next to them.
  - `id`, `model`, `error` — identifiers, entities and the error type with its
    messages and HTTP statuses.
  - `auth` — scopes, grants, bearer parsing, token hashing and expiry.
  - `query` — the filter language: lexer, precedence parser and evaluation.
  - `chunking`, `extract` — fixed-size chunking; the format of an upload, and
    its text from plain bytes or from what a format's decoder produced.
  - `index` — the lexical index, the quantised vector index, and the
    tombstone bookkeeping of the HNSW index.
  - `idset`, `engine`, `edits`, `batch` — candidate sets, filter resolution by
    set algebra, search planning, snippets, record edits and query batching.
  - `store`, `jobs` — index keys, sequences, paging, chunk chaining, and the job
    life cycle with its retry policy.
  - `crypto`, `backup` — key derivation and sealing; backup naming, planning,
    differential patches and pruning.
  - `server`, `requests`, `util` — configuration, metrics, request defaults and
    parsing, time formatting.
- `app/` — the server around the library: the redb store, the vector indexes and
  their float scoring (exact cosine, the HNSW graph, BM25), the document
  decoders, query-embedding batching, the HTTP API, background workers and the backup scheduler.
- `tests/` — tests of the library's public functions.
