//! Core logic of a censorship-resistant tunneling system: route descriptors
//! and their compilation into composed dialers, constraint-based exit
//! selection over a signed directory, a per-address failure cache, the
//! client/exit hello handshake with directional session-key derivation, and
//! the signed and MAC envelopes that carry exit descriptors to and from the
//! broker.

use vstd::prelude::*;

pub mod cache;
pub mod crypto;
pub mod directory;
pub mod envelope;
pub mod handshake;
pub mod register;
pub mod codec;
pub mod net;
pub mod route;
pub mod select;

verus! {

/// Seconds an exit descriptor stays valid after it is produced.
pub const DESCRIPTOR_TTL_SECS: u64 = 600;

} // verus!
