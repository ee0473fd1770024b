//! What a meter reading describes.

use vstd::prelude::*;

use crate::console::id::BusId;
use crate::console::id::StripId;

verus! {

/// A peak at or above this level, -0.1 dB, counts as clipped.
pub const CLIP_DB: u32 = 0xBDCC_CCCD;

/// Which point of the console a peak was taken at.
#[derive(Debug, Clone, Copy, PartialEq, Eq, Hash, Structural)]
#[allow(inconsistent_fields)]
pub enum MeterKey {
    Strip { id: StripId },
    Bus { id: BusId },
    Master,
}

} // verus!
