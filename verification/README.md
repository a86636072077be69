# gtmux_http_api

The verified core of the gtmux HTTP API: the rules the server applies to
requests, written in Verus with their contracts proved.

- `src/schema.rs` — the canvas layout model (schema v2) and its validation,
  first failure reported.
- `src/sessions.rs` — session records and their ETags, the conditional
  layout write, webpage identity and attach bookkeeping, export naming,
  RFC 3339 timestamps, terminal-UUID diffs.
- `src/session_lock.rs` — what a lock-file probe means, lease bodies, the
  boot-time stale-lock sweep, server ids.
- `src/settings.rs` — behaviour settings and the patch merge rules, the
  password rule and password-change decision.
- `src/auth.rs`, `src/http.rs`, `src/shutdown.rs` — the open-redirect guard,
  the error taxonomy, Origin/Host checks, the bootstrap redirect and its
  query encoder, security headers, the shutdown answer.
- `src/text.rs` — UTF-8, whitespace, hex and decimal helpers.

`app/` holds the process edge: the JSON wire forms (with the floating-point
canvas geometry), lock-file I/O, and request glue.
