//! Hard bounds of the narrow NUT reader (hostile inputs cannot exceed them).

use vstd::prelude::*;

verus! {

/// Maximum declared streams.
pub const MAX_STREAMS: usize = 64;

/// Maximum declared time bases.
pub const MAX_TIME_BASES: usize = 128;

/// Maximum frame-code run length.
pub const MAX_RUN: u64 = 512;

/// Maximum version accepted (NUT 2..=4).
pub const MAX_VERSION: u64 = 4;

/// Maximum bytes in one frame payload (far above any real frame; the real
/// bound comes from the epoch limits at canonicalization).
pub const MAX_FRAME_PAYLOAD: u64 = 0x4000_0000;

} // verus!
