//! Verified core of the gtmux HTTP API: layout schema validation, session
//! lock bookkeeping, session helpers, settings and request-level checks.

pub mod text;
pub mod schema;
pub mod session_lock;
pub mod sessions;
pub mod settings;
pub mod auth;
pub mod http;
pub mod shutdown;
