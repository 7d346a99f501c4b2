//! Verified core of a RESP (Redis serialization protocol) key-value server:
//! a binary-safe frame codec, an expiry-aware keyed store, a command
//! dispatcher, and the replica-side handshake state machine.

pub mod protocol;
pub mod store;
pub mod text;
pub mod commands;
pub mod handshake;
pub mod session;
