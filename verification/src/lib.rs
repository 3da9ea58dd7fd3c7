//! Consistent-hashing upstream balancer: a CRC-32 checksum engine, per-server
//! ring-point generation, ring assembly (sort and deduplicate), circular
//! key-to-point lookup, and a peer registry that counts hits.

use vstd::prelude::*;

pub mod chash;
pub mod crc32;
pub mod lookup;
pub mod peer;

pub use chash::{ngx_chash, ngx_chash_upstream, remove_duplicate, HashPointS, CHASH_FACTOR, MAX_RETRIES};
pub use crc32::{ngx_crc32_final, ngx_crc32_long, ngx_crc32_update, CRC32_INIT, CRC32_TABLE};
pub use lookup::{find_hash_point, find_server};
pub use peer::{ngx_find_peer, ServerS};

verus! {

/// Failures the library reports explicitly instead of panicking.
#[derive(Clone, Copy, Debug, PartialEq, Eq, Structural)]
pub enum ChashError {
    /// A server address holds no `:` separator between host and port.
    InvalidAddress,
    /// A lookup was attempted against a ring with no points.
    EmptyRing,
}

} // verus!
