//! Node-to-client ingestion core: segment framing, channel demultiplexing,
//! version handshake decisions, intersection resolution, the confirmation
//! (rollback) buffer of chain-sync, and the reconnect policy.
pub mod framer;
pub mod mux;
pub mod rollback;
pub mod retry;
pub mod handshake;
pub mod intersect;
pub mod chainsync;
pub mod config;
