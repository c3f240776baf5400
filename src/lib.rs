//! Relay core for CTMP, a framed binary protocol: frame validation with an
//! optional 16-bit one's-complement checksum, the producer session that turns
//! stream reads into broadcasts, and the registry of consumer sinks with
//! eviction on failed writes. Sockets, threads and locking are left to the
//! caller.
use vstd::prelude::*;

pub mod checksum;
pub mod frame;
pub mod registry;
pub mod session;

verus! {

/// Size in bytes of a frame header on the wire.
pub const HEADER_LEN: usize = 8;

} // verus!
