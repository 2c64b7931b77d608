# lenso_access_control

Scoped, allow-only role-based access control, verified with Verus.

Scopes are opaque `{ kind, id }` references. A subject's permissions in a
scope are the union of the grants of every role bound to it there; missing
policy, role, binding or grant denies. Bootstrap creates one protected
administrator role; every later mutation needs an authenticated actor that
holds the scoped administration permission, and every effective mutation
advances the scope's policy revision once.

## Layout

- `src/model.rs` — the abstract policy of every scope and the exact effect of
  each operation on it; `src/laws.rs` — the properties proved of it.
- `src/storage.rs` — the storage values and the `Store` trait that every
  backend meets; `src/memory.rs` — a verified in-memory store.
- `src/service.rs` — request admission, answer shaping, and `AccessControl`,
  which joins them over any `Store`.
- `src/identifiers.rs`, `src/text.rs` — identifier rules and bytewise text order.
- `src/config.rs` — configuration rules for the policy, D1 and PostgreSQL.
- `src/d1.rs` — decoding of the receipts of the D1 backend's atomic batches.
- `src/postgres.rs` — the PostgreSQL backend's decisions over the facts its
  transactions read, proved to agree with the model.
- `src/tools.rs` — the agent tool catalog, routing and failure reporting.
- `app/` — the I/O around the library: configuration documents, Capability
  wire types, actor assertions, D1 and PostgreSQL SQL, and the tool provider.
- `tests/` — scenario and edge-case tests.
