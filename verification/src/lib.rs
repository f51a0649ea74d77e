//! Core of a bidirectional RPC runtime carried over a secured WebSocket
//! tunnel, paired with server-authoritative per-connection state replication.
//!
//! This crate holds the verified heart of the runtime: the wire codec for the
//! three envelope kinds, the protocol-version gate of the handshake, the
//! client-side call multiplexer with its 256-slot table, the server-side
//! in-flight bookkeeping, and the field-addressed state diff and its
//! application on the client replica. The asynchronous shell (TLS, WebSocket
//! I/O, task spawning) drives these functions from outside.

use vstd::prelude::*;

pub mod client_mux;
pub mod handshake;
pub mod server_mux;
pub mod state;
pub mod wire;

verus! {

/// The compiled-in protocol major version. The handshake sub-label both
/// ends advertise and test is `hl/<major>` for this value (see
/// `handshake::protocol_label`); it follows the crate's own major version.
pub const HL_VERSION_MAJOR: u64 = 0;

} // verus!
