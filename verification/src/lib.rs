//! Per-node coordination layer of a replicated key-value store: the
//! coordinator that owns a consensus engine, applies newly decided entries
//! to the local store, and enforces a programmable broken-link policy; the
//! command parsers and wire codecs that feed it; and a stub engine for
//! exercising the whole path.
pub mod kv;
pub mod codec;
pub mod coordinator;
pub mod engine;
pub mod links;
pub mod parse;
pub mod ports;
