# blues

The verified core of Blues, a local AI-collaboration daemon: identifiers,
errors, provenance, the inbox-first memory engine with its multi-route recall
and budget-aware context compiler, the wire-protocol error mapping, and the
records the other engines exchange.

Layout:

- `src/base/` — identifiers (ULID values and their text), errors, lifecycle
  states, memory layers, capabilities, provenance, event kinds.
- `src/memory/` — the store (inbox and confirmed layers, with a SQLite FTS5
  index over confirmed content), the hash embedder, recall (full-text and
  vector routes fused by reciprocal rank), the context compiler, consolidation
  (decay) and the engine that ties them together. Confidence is held in parts
  per million; embeddings are bucket counts, ranked by exact cosine fractions.
- `src/protocol/` — protocol version, the status codes and the
  error-to-status mapping both ways.
- `src/trusted/` — every call into `ulid`, `time`, `rusqlite` and the parts of
  `std` that carry no specification, each with the contract taken on trust.
- `src/{plan,model,sandbox,skill,agent,config,daemon,mcp,cli}.rs` — records and
  engine traits of the other components.
- `app/` — the command-line entry point, the async engine trait over a lock,
  serde wire forms (with their floating-point fields) and the floating-point
  helpers for embeddings.
- `tests/` — behaviour tests run against the compiled library.
