//! Core engine of a reverse tunnel: handshake and route-registration
//! protocol, length-prefixed frame codec, server-side flow demultiplexing
//! for datagram routes, and the client's retry policy.
//!
//! Everything here is pure logic over plain values.  The surrounding
//! program performs the network I/O and feeds the outcomes back into
//! these functions.

use vstd::prelude::*;

pub mod codec;
pub mod config;
pub mod flow;
pub mod handshake;
pub mod namemap;
pub mod proto;
pub mod routes;
pub mod supervisor;

verus! {

/// Application-level close code for an orderly endpoint shutdown.
pub const CODE_SHUTDOWN: u8 = 0;

/// Application-level close code when the peer's token does not match.
pub const CODE_AUTH_FAILED: u8 = 10;

/// The single acknowledgement byte written after a successful token check.
pub const CODE_AUTH_SUCCESS: u8 = 11;

} // verus!
