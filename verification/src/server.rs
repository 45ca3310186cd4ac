//! The server side: per-connection records and the orchestrator core.

pub mod authoritative;
pub mod client;
