//! Fixed numbers of the protocol and of this client's policy.
use vstd::prelude::*;

verus! {

/// Largest number of bytes asked for in one request: 2^14 = 16 KB.
pub const BLOCK_SIZE: u32 = 0x4000;

/// Largest number of bytes that a peer may ask for in one request: 2^17 = 128 KB.
pub const MAX_ALLOWED_BLOCK_SIZE: u32 = 0x2_0000;

/// Interested peers that are unchoked at a time, the optimistically unchoked one not counted.
pub const MAX_DOWNLOADERS: u32 = 3;

/// Seconds over which transfer rates are averaged.
pub const ROLLING_AVERAGE_SIZE: usize = 20;

/// Seconds between two regular turns of unchoking.
pub const CHOKE_INTERVAL: u64 = 10;

/// Seconds between two optimistic turns of unchoking.
pub const OPTIMISTIC_UNCHOKE_INTERVAL: u64 = 30;

/// Seconds after which a block that was asked for and has not come is given back.
pub const REQUEST_TIMEOUT: u64 = 7;

/// Seconds between two updates of a peer's rates.
pub const TICK_INTERVAL: u64 = 1;

} // verus!
