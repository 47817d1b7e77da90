//! A peer-to-peer networking core: registries of desired and live peer
//! connections, a deterministic tie-break for duplicate links, reconciliation
//! of desired against actual peers, and the framing used by the per-stream
//! request/response exchange.
//!
//! Everything here is transport-independent: live connections are identified
//! by the peer's identity together with a transport session number, and the
//! process that owns the transport performs the actual dialing, stream I/O and
//! task scheduling, consulting these registries and decision functions.

pub mod active_peers;
pub mod connection_manager;
pub mod ids;
pub mod known_peers;
pub mod registry;
pub mod types;
pub mod wire;
