//! The decibel ranges of the console's knobs, each end given by its
//! single-precision bits.

use vstd::prelude::*;

verus! {

/// A fader at the bottom of its throw, -90 dB, is a true cut.
pub const FADER_MIN_DB: u32 = 0xC2B4_0000;

/// The top of a fader's throw: 10 dB.
pub const FADER_MAX_DB: u32 = 0x4120_0000;

/// The least input trim: -20 dB.
pub const GAIN_MIN_DB: u32 = 0xC1A0_0000;

/// The most input trim: 60 dB.
pub const GAIN_MAX_DB: u32 = 0x4270_0000;

} // verus!
