# financial_rag

A retrieval-augmented question answering service over financial filings,
with its core logic verified in Verus.

`src/` is the verified library:

- `text.rs`: white space, word splitting and joining, trimming, splitting on a
  character, decimal rendering; with the laws that joined words split back.
- `pattern.rs`: regular expressions run by the `regex` crate.
- `document_processor.rs`: text extraction from raw document contents and
  section-aware chunking of documents into overlapping word windows; laws on
  chunk size, coverage, overlap and chunk text.
- `keyed.rs`: maps by name held as lists of distinct (name, value) pairs.
- `vector_store.rs`: the store of chunks with their vectors and per-document
  counts; laws on removal, add-then-remove and count consistency.
- `crypto.rs`: base64url, HMAC-SHA256 and JSON string quoting, by the
  `base64`, `hmac`/`sha2` and `serde_json` crates.
- `auth.rs`: signed tokens (issue and verify, with the law that a verified
  issued token gives its claims back), the per-user rate limit with its
  window laws, and the authorization decisions.
- `document_queue.rs`: job results and statuses.
- `rag_pipeline.rs`: the prompt built from retrieved passages.
- `server.rs`: request and response bodies and handler decisions.
- `config.rs`, `clock.rs`: configuration defaults and the wall clock.

`app/` is the HTTP service around it (axum, the model server client,
background workers, similarity search over floating-point vectors).
