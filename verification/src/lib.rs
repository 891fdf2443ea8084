//! Verified core of a streaming bridge: per-connection lifecycle, incremental
//! SSE frame reconstruction across arbitrary chunk boundaries, keep-alive and
//! idle-timeout eviction, and multiplexed outbound delivery.

pub mod adapter;
pub mod events;
pub mod json;
pub mod keepalive;
pub mod mux;
pub mod orchestrator;
pub mod registry;
pub mod sse;
