//! Core of a small encrypted group-chat system: the wire codec for the
//! typed packets, the authenticated-encryption framing, the account and
//! message store, the central broker that owns all shared state, and the
//! per-connection decision logic around them.

pub mod channel;
pub mod commands;
pub mod config;
pub mod connection;
pub mod crypto;
pub mod frame;
pub mod gui;
pub mod msgpack;
pub mod packets;
pub mod store;
pub mod utils;

use vstd::prelude::*;

verus! {

/// Port the server binds to when the configuration gives none.
pub const DEFAULT_PORT: u16 = 13723;

/// Bit size of the RSA key pair generated at broker start.
pub const RSA_BITS: usize = 1024;

/// Length in bytes of the handshake challenge token.
pub const ENC_TOK_LEN: usize = 32;

/// Length in bytes of the symmetric session secret.
pub const SECRET_LEN: usize = 32;

/// Length in bytes of one frame nonce.
pub const NONCE_LEN: usize = 24;

} // verus!
