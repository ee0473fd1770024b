//! What crosses between the control side and the audio thread.

use vstd::prelude::*;

use crate::single::Single;

verus! {

/// Index into a compiled graph's table of continuous parameters.
#[derive(Debug, Clone, Copy, PartialEq, Eq, Hash, Structural)]
pub struct ParamIx(pub u16);

/// Index into a compiled graph's table of switches.
#[derive(Debug, Clone, Copy, PartialEq, Eq, Hash, Structural)]
pub struct FlagIx(pub u16);

/// Index into a compiled graph's table of EQ bands.
#[derive(Debug, Clone, Copy, PartialEq, Eq, Hash, Structural)]
pub struct EqIx(pub u16);

/// Where the playback mix goes: the hardware output, or the browser monitor
/// ring while the live mix stays on the wire.
#[derive(Debug, Clone, Copy, PartialEq, Eq, Structural)]
pub enum MonitorTarget {
    Hardware,
    Stream,
}

impl Default for MonitorTarget {
    fn default() -> (target: MonitorTarget)
        ensures
            target == MonitorTarget::Hardware,
    {
        MonitorTarget::Hardware
    }
}

/// Monitor ring capacity: about two seconds of interleaved stereo.
pub const MONITOR_RING_CAPACITY: usize = 192_000;

/// Command ring depth.
pub const CMD_RING_CAPACITY: usize = 1024;

/// Metered points per block.
pub const MAX_METERS: usize = 64;

/// Telemetry ring depth.
pub const METER_RING_CAPACITY: usize = 64;

/// Depth of the ring that takes back what the audio thread must not drop.
pub const RETIRE_RING_CAPACITY: usize = 16;

/// One block's worth of peaks.
#[derive(Debug, Clone, Copy)]
pub struct MeterBlock {
    /// Counts blocks.
    pub frame: u64,
    /// How many entries of `peak` and `clip_bits` are live.
    pub count: u8,
    /// Linear peak per metered point.
    pub peak: [Single; 64],
    /// Bit `i` set: point `i` saw a clipped sample this block.
    pub clip_bits: u64,
}

/// Whether bit `index` is set.
pub open spec fn bit_set(bits: u64, index: int) -> bool {
    (bits & (1u64 << index)) != 0
}

impl MeterBlock {
    /// A block in which nothing moved.
    pub fn empty(frame: u64) -> (block: MeterBlock)
        ensures
            block.frame == frame,
            block.count == 0,
            block.clip_bits == 0,
            forall|i: int| 0 <= i < 64 ==> #[trigger] block.peak@[i] == (Single { bits: 0 }),
    {
        MeterBlock { frame, count: 0, peak: [Single { bits: 0 }; 64], clip_bits: 0 }
    }

    /// Whether a point clipped in this block.
    pub fn clipped(&self, index: usize) -> (clipped: bool)
        requires
            index < MAX_METERS,
        ensures
            clipped == bit_set(self.clip_bits, index as int),
    {
        self.clip_bits & (1u64 << index) != 0
    }

    /// Marks a point as clipped.
    pub fn mark(&mut self, index: usize)
        requires
            index < MAX_METERS,
        ensures
            bit_set(final(self).clip_bits, index as int),
            forall|i: int|
                0 <= i < 64 && i != index ==> #[trigger] bit_set(final(self).clip_bits, i)
                    == bit_set(old(self).clip_bits, i),
            final(self).frame == old(self).frame,
            final(self).count == old(self).count,
            final(self).peak == old(self).peak,
    {
        let bits: u64 = self.clip_bits;
        self.clip_bits = bits | (1u64 << index);
        proof {
            let at = index as u64;
            assert((bits | (1u64 << at)) & (1u64 << at) != 0) by (bit_vector)
                requires
                    at < 64,
            ;
            assert forall|i: int| 0 <= i < 64 && i != index implies #[trigger] bit_set(
                self.clip_bits,
                i,
            ) == bit_set(bits, i) by {
                let other = i as u64;
                assert(((bits | (1u64 << at)) & (1u64 << other) != 0) == (bits & (1u64 << other)
                    != 0)) by (bit_vector)
                    requires
                        at < 64,
                        other < 64,
                        at != other,
                ;
            }
        }
    }
}

} // verus!
