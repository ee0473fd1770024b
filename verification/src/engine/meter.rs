//! Peak and clip of one metered point over one block.

use vstd::prelude::*;

use crate::engine::compiled::CompiledGraph;
use crate::engine::rings::MAX_METERS;
use crate::single::Single;
use crate::single::SIGN_BIT;

verus! {

/// A sample without its sign.
pub open spec fn loudness(sample: Single) -> Single {
    Single { bits: sample.magnitude() as u32 }
}

/// The louder of a running peak and a sample's loudness. What is not a number
/// never raises the peak.
pub open spec fn raised(peak: Single, sample: Single) -> Single {
    let loud = loudness(sample);
    if !loud.is_nan() && !peak.is_nan() && loud.rank() > peak.rank() {
        loud
    } else {
        peak
    }
}

/// Collects peak and clip of one metered point; `take` starts the next block.
#[derive(Debug, Clone, Copy, PartialEq, Eq, Structural)]
pub struct MeterAccum {
    pub peak: Single,
    pub clipped: bool,
    /// The loudness from which on a sample counts as clipped.
    pub clip_linear: Single,
}

impl MeterAccum {
    /// A point that has heard nothing.
    pub fn new(clip_linear: Single) -> (meter: MeterAccum)
        ensures
            meter == (MeterAccum { peak: Single { bits: 0 }, clipped: false, clip_linear }),
    {
        MeterAccum { peak: Single { bits: 0 }, clipped: false, clip_linear }
    }

    /// Takes one sample into account.
    pub fn accumulate(&mut self, sample: Single)
        ensures
            final(self).peak == raised(old(self).peak, sample),
            final(self).clipped == (old(self).clipped || old(self).clip_linear.at_most(
                loudness(sample),
            )),
            final(self).clip_linear == old(self).clip_linear,
    {
        let bits: u32 = if sample.bits >= SIGN_BIT {
            sample.bits - SIGN_BIT
        } else {
            sample.bits
        };
        let loud = Single { bits };
        if self.peak.le(loud) && !loud.le(self.peak) {
            self.peak = loud;
        }
        if self.clip_linear.le(loud) {
            self.clipped = true;
        }
    }

    /// Reads the block's peak and clip, and starts over.
    pub fn take(&mut self) -> (reading: (Single, bool))
        ensures
            reading == (old(self).peak, old(self).clipped),
            *final(self) == (MeterAccum {
                peak: Single { bits: 0 },
                clipped: false,
                clip_linear: old(self).clip_linear,
            }),
    {
        let reading = (self.peak, self.clipped);
        self.peak = Single { bits: 0 };
        self.clipped = false;
        reading
    }
}

/// The peak after a run of samples.
pub open spec fn peak_of(start: Single, samples: Seq<Single>) -> Single
    decreases samples.len(),
{
    if samples.len() == 0 {
        start
    } else {
        raised(peak_of(start, samples.drop_last()), samples.last())
    }
}

/// A block's peak is at least as loud as every sample in it that is a number,
/// and is one of them unless the block was silent.
pub proof fn the_peak_is_the_loudest(samples: Seq<Single>)
    ensures
        !peak_of(Single { bits: 0 }, samples).is_nan(),
        forall|i: int|
            0 <= i < samples.len() && !(#[trigger] samples[i]).is_nan() ==> loudness(
                samples[i],
            ).at_most(peak_of(Single { bits: 0 }, samples)),
        peak_of(Single { bits: 0 }, samples) != (Single { bits: 0 }) ==> exists|i: int|
            0 <= i < samples.len() && loudness(#[trigger] samples[i]) == peak_of(
                Single { bits: 0 },
                samples,
            ),
    decreases samples.len(),
{
    if samples.len() > 0 {
        let rest = samples.drop_last();
        the_peak_is_the_loudest(rest);
        let before = peak_of(Single { bits: 0 }, rest);
        let after = peak_of(Single { bits: 0 }, samples);
        assert forall|i: int| 0 <= i < samples.len() && !(#[trigger] samples[i]).is_nan() implies loudness(
            samples[i],
        ).at_most(after) by {
            if i < rest.len() {
                assert(rest[i] == samples[i]);
            }
        }
        if after != (Single { bits: 0 }) {
            if after == before {
                let i = choose|i: int| 0 <= i < rest.len() && loudness(#[trigger] rest[i]) == before;
                assert(samples[i] == rest[i]);
            } else {
                assert(loudness(samples[samples.len() - 1]) == after);
            }
        }
    }
}

/// The meter point of a strip. Strips that are too many have none.
pub fn strip_point(strip: usize) -> (point: Option<usize>)
    ensures
        point == if strip < MAX_METERS - 1 {
            Some(strip)
        } else {
            None::<usize>
        },
{
    if strip < MAX_METERS - 1 {
        Some(strip)
    } else {
        None
    }
}

impl<D> CompiledGraph<D> {
    /// The meter point of the master: the last.
    pub fn master_point(&self) -> (point: usize)
        requires
            self@.meter_count > 0,
        ensures
            point == self@.meter_count - 1,
    {
        self.meter_count - 1
    }
}

/// The strips and the master each have a meter point of their own, within the
/// meter block.
pub proof fn no_two_meters_share_a_point(strips: nat, i: int, j: int)
    requires
        0 <= i < j < strips,
    ensures
        ({
            let count = if strips + 1 < MAX_METERS {
                strips + 1
            } else {
                MAX_METERS as nat
            };
            &&& count <= MAX_METERS
            &&& j < MAX_METERS - 1 ==> i != j && j != count - 1 && i != count - 1
        }),
{
}

} // verus!
