# mcp_core

Shared building blocks for MCP and web servers, written in Verus: the decisions of the
token-auth middleware, the session login and access check, the landing page, the security
headers, the typed data catalog's JSON:API envelopes and list query, the legacy SSE
transport's routes and session ids, and the server configuration — each stated as a contract
and proved.

Layout:

- `src/` — the verified library.
  - `auth.rs`, `credentials.rs` — `Authorization` Bearer/Basic checking and the 401 challenge.
  - `web/` — session login, signed session cookies and the access check, landing page,
    security headers on a response's header map, catalog and search types, the embedded
    shell's layout check.
  - `strmap.rs` — an ordered string-keyed map (ascending keys, each once).
  - `text.rs` — character-level string helpers and `usize` parsing.
  - `transport/sse.rs` — SSE route paths, session ids, `endpoint` event, POST answers, the
    store of open sessions.
  - `cli.rs` — listen addresses and configuration defaults.
- `app/` — the axum/tower/rmcp/clap plumbing around the library (routers, middleware,
  the SSE server, serving, the consumer test harness).
- `tests/` — tests of the library on concrete values.
