//! The `agentero-web` viewer proxy: which hosts it may serve, and how it
//! rewrites the documents it relays.
pub mod allowlist;

pub mod proxy;
