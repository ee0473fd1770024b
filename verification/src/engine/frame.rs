//! Where samples come from and where they go: what a strip reads of the two
//! input frames, and what lands on each channel of the output plane.

use vstd::prelude::*;

use crate::engine::compiled::CompiledGraph;
use crate::engine::compiled::DirectOut;
use crate::engine::compiled::GraphView;
use crate::engine::compiled::StripSource;
use crate::engine::compiled::TapPoint;
use crate::engine::slots::MAX_OUTPUT_CHANNELS;
use crate::engine::slots::MONITOR_CHANNELS;
use crate::single::Single;

verus! {

/// Which sample of a block a strip reads.
#[derive(Debug, Clone, Copy, PartialEq, Eq, Structural)]
pub enum SampleAt {
    Silence,
    /// Index into the device input block.
    Input(usize),
    /// Index into the instrument rack's block.
    Instrument(usize),
}

/// What a strip reads at one frame: a channel that its frame does not have is
/// silence.
pub open spec fn sample_of(
    source: StripSource,
    frame: int,
    input_channels: int,
    rack_channels: int,
) -> SampleAt {
    match source {
        StripSource::Silence => SampleAt::Silence,
        StripSource::Input(c) => if c < input_channels {
            SampleAt::Input((frame * input_channels + c) as usize)
        } else {
            SampleAt::Silence
        },
        StripSource::Instrument(c) => if c < rack_channels {
            SampleAt::Instrument((frame * rack_channels + c) as usize)
        } else {
            SampleAt::Silence
        },
    }
}

impl StripSource {
    /// Which sample a strip reads at one frame of a block of `frames` frames.
    pub fn sample_at(
        self,
        frame: usize,
        frames: usize,
        input_channels: usize,
        rack_channels: usize,
    ) -> (at: SampleAt)
        requires
            frame < frames,
            frames * input_channels <= usize::MAX,
            frames * rack_channels <= usize::MAX,
        ensures
            at == sample_of(self, frame as int, input_channels as int, rack_channels as int),
            match at {
                SampleAt::Silence => true,
                SampleAt::Input(i) => i < frames * input_channels,
                SampleAt::Instrument(i) => i < frames * rack_channels,
            },
    {
        proof {
            assert((frame + 1) * input_channels <= frames * input_channels) by (nonlinear_arith)
                requires
                    frame + 1 <= frames,
            ;
            assert((frame + 1) * rack_channels <= frames * rack_channels) by (nonlinear_arith)
                requires
                    frame + 1 <= frames,
            ;
            assert((frame + 1) * input_channels == frame * input_channels + input_channels)
                by (nonlinear_arith);
            assert((frame + 1) * rack_channels == frame * rack_channels + rack_channels)
                by (nonlinear_arith);
        }
        match self {
            StripSource::Silence => SampleAt::Silence,
            StripSource::Input(c) => if (c as usize) < input_channels {
                SampleAt::Input(frame * input_channels + c as usize)
            } else {
                SampleAt::Silence
            },
            StripSource::Instrument(c) => if (c as usize) < rack_channels {
                SampleAt::Instrument(frame * rack_channels + c as usize)
            } else {
                SampleAt::Silence
            },
        }
    }
}

/// Whether anything on the desk is listened to before its fader.
pub open spec fn listens(g: GraphView) -> bool {
    ||| exists|i: int| 0 <= i < g.strips.len() && (#[trigger] g.strips[i]).pfl
    ||| exists|i: int| 0 <= i < g.buses.len() && (#[trigger] g.buses[i]).pfl
}

impl<D> CompiledGraph<D> {
    /// Whether anything on the desk is listened to before its fader.
    pub fn any_pfl(&self) -> (any: bool)
        ensures
            any == listens(self@),
    {
        let ghost g = self@;
        let mut i: usize = 0;
        while i < self.strips.len()
            invariant
                g == self@,
                i <= self.strips.len(),
                forall|j: int| 0 <= j < i ==> !(#[trigger] g.strips[j]).pfl,
            decreases self.strips.len() - i,
        {
            if self.strips[i].pfl {
                assert(g.strips[i as int].pfl);
                return true;
            }
            assert(!g.strips[i as int].pfl);
            i = i + 1;
        }
        let mut i: usize = 0;
        while i < self.buses.len()
            invariant
                g == self@,
                i <= self.buses.len(),
                forall|j: int| 0 <= j < g.strips.len() ==> !(#[trigger] g.strips[j]).pfl,
                forall|j: int| 0 <= j < i ==> !(#[trigger] g.buses[j]).pfl,
            decreases self.buses.len() - i,
        {
            if self.buses[i].pfl {
                assert(g.buses[i as int].pfl);
                return true;
            }
            i = i + 1;
        }
        false
    }
}

/// Both sides of a signal.
#[derive(Debug, Clone, Copy, PartialEq, Eq, Structural)]
pub struct Stereo {
    pub l: Single,
    pub r: Single,
}

/// A node's signal in front of and behind its mute and fader.
#[derive(Debug, Clone, Copy, PartialEq, Eq, Structural)]
pub struct TapLevels {
    pub pre: Stereo,
    pub post: Stereo,
}

/// What the monitor pair carries: the listening bus on both sides while
/// anything is listened to, else the mix.
pub fn monitor_feed(any_pfl: bool, pfl: Single, mix: Stereo) -> (feed: Stereo)
    ensures
        feed == if any_pfl {
            Stereo { l: pfl, r: pfl }
        } else {
            mix
        },
{
    if any_pfl {
        Stereo { l: pfl, r: pfl }
    } else {
        mix
    }
}

/// What a direct out carries.
pub open spec fn tapped(
    out: DirectOut,
    strips: Seq<TapLevels>,
    buses: Seq<TapLevels>,
    master: TapLevels,
) -> Single {
    let levels = match out.source {
        TapPoint::Strip(i) => strips[i as int],
        TapPoint::Bus(i) => buses[i as int],
        TapPoint::Master => master,
    };
    let signal = if out.pre {
        levels.pre
    } else {
        levels.post
    };
    if out.side == 0 {
        signal.l
    } else {
        signal.r
    }
}

/// One frame of silence on the plane.
pub open spec fn silent_row() -> Seq<Single> {
    Seq::new(MAX_OUTPUT_CHANNELS as nat, |i: int| Single { bits: 0 })
}

/// One frame of the plane: silence, the monitor pair, then the first `n`
/// direct outs.
pub open spec fn row(
    feed: Stereo,
    outs: Seq<DirectOut>,
    strips: Seq<TapLevels>,
    buses: Seq<TapLevels>,
    master: TapLevels,
    n: int,
) -> Seq<Single>
    decreases n,
{
    if n <= 0 {
        silent_row().update(0, feed.l).update(1, feed.r)
    } else {
        row(feed, outs, strips, buses, master, n - 1).update(
            outs[n - 1].channel as int,
            tapped(outs[n - 1], strips, buses, master),
        )
    }
}

/// Whether every direct out taps a node that is there and lands on the plane.
pub open spec fn outs_fit(outs: Seq<DirectOut>, strips: nat, buses: nat) -> bool {
    forall|j: int|
        0 <= j < outs.len() ==> {
            &&& (#[trigger] outs[j]).channel < MAX_OUTPUT_CHANNELS
            &&& match outs[j].source {
                TapPoint::Strip(i) => i < strips,
                TapPoint::Bus(i) => i < buses,
                TapPoint::Master => true,
            }
        }
}

/// Writes one frame of the plane.
pub fn write_row(
    plane: &mut Vec<Single>,
    frame: usize,
    feed: Stereo,
    outs: &Vec<DirectOut>,
    strips: &Vec<TapLevels>,
    buses: &Vec<TapLevels>,
    master: TapLevels,
)
    requires
        (frame + 1) * MAX_OUTPUT_CHANNELS <= old(plane)@.len(),
        outs_fit(outs@, strips@.len(), buses@.len()),
    ensures
        final(plane)@.len() == old(plane)@.len(),
        final(plane)@.subrange(
            frame * MAX_OUTPUT_CHANNELS,
            (frame + 1) * MAX_OUTPUT_CHANNELS,
        ) == row(feed, outs@, strips@, buses@, master, outs@.len() as int),
        forall|i: int|
            0 <= i < frame * MAX_OUTPUT_CHANNELS || (frame + 1) * MAX_OUTPUT_CHANNELS <= i
                < old(plane)@.len() ==> #[trigger] final(plane)@[i] == old(plane)@[i],
{
    let ghost before = plane@;
    let length: usize = plane.len();
    let base: usize = frame * MAX_OUTPUT_CHANNELS;
    let ghost end = base + MAX_OUTPUT_CHANNELS;
    let mut c: usize = 0;
    while c < MAX_OUTPUT_CHANNELS
        invariant
            c <= MAX_OUTPUT_CHANNELS,
            end == base + MAX_OUTPUT_CHANNELS,
            end <= before.len() == length,
            plane@.len() == before.len(),
            forall|i: int| base <= i < base + c ==> #[trigger] plane@[i] == (Single { bits: 0 }),
            forall|i: int|
                0 <= i < base || end <= i < before.len() ==> #[trigger] plane@[i] == before[i],
        decreases MAX_OUTPUT_CHANNELS - c,
    {
        plane[base + c] = Single { bits: 0 };
        c = c + 1;
    }
    plane[base] = feed.l;
    plane[base + 1] = feed.r;
    assert(plane@.subrange(base as int, end) =~= row(
        feed,
        outs@,
        strips@,
        buses@,
        master,
        0,
    ));
    let mut j: usize = 0;
    while j < outs.len()
        invariant
            j <= outs.len(),
            end == base + MAX_OUTPUT_CHANNELS,
            end <= before.len() == length,
            plane@.len() == before.len(),
            outs_fit(outs@, strips@.len(), buses@.len()),
            plane@.subrange(base as int, end) == row(
                feed,
                outs@,
                strips@,
                buses@,
                master,
                j as int,
            ),
            forall|i: int|
                0 <= i < base || end <= i < before.len() ==> #[trigger] plane@[i] == before[i],
        decreases outs.len() - j,
    {
        let out: DirectOut = outs[j];
        assert(outs@[j as int].channel < MAX_OUTPUT_CHANNELS);
        let levels: TapLevels = match out.source {
            TapPoint::Strip(i) => strips[i as usize],
            TapPoint::Bus(i) => buses[i as usize],
            TapPoint::Master => master,
        };
        let signal: Stereo = if out.pre {
            levels.pre
        } else {
            levels.post
        };
        let value: Single = if out.side == 0 {
            signal.l
        } else {
            signal.r
        };
        plane[base + out.channel as usize] = value;
        j = j + 1;
        assert(plane@.subrange(base as int, end) =~= row(
            feed,
            outs@,
            strips@,
            buses@,
            master,
            j as int,
        ));
    }
}

/// Listening to a channel, or to a take, does not reach a direct out: whatever
/// the monitor pair carries, the rest of the plane is the same.
pub proof fn the_monitor_feed_stays_in_its_pair(
    feed: Stereo,
    other: Stereo,
    outs: Seq<DirectOut>,
    strips: Seq<TapLevels>,
    buses: Seq<TapLevels>,
    master: TapLevels,
    n: int,
)
    requires
        0 <= n <= outs.len(),
        outs_fit(outs, strips.len(), buses.len()),
    ensures
        row(feed, outs, strips, buses, master, n).len() == MAX_OUTPUT_CHANNELS,
        forall|c: int|
            MONITOR_CHANNELS <= c < MAX_OUTPUT_CHANNELS ==> #[trigger] row(
                feed,
                outs,
                strips,
                buses,
                master,
                n,
            )[c] == row(other, outs, strips, buses, master, n)[c],
    decreases n,
{
    if n > 0 {
        the_monitor_feed_stays_in_its_pair(feed, other, outs, strips, buses, master, n - 1);
        the_monitor_feed_stays_in_its_pair(other, feed, outs, strips, buses, master, n - 1);
    }
}

/// A direct out carries what it taps, as long as no later one shares its
/// channel, and the monitor pair carries its feed as long as no direct out is
/// on it.
pub proof fn every_direct_out_carries_its_tap(
    feed: Stereo,
    outs: Seq<DirectOut>,
    strips: Seq<TapLevels>,
    buses: Seq<TapLevels>,
    master: TapLevels,
    n: int,
)
    requires
        0 <= n <= outs.len(),
        outs_fit(outs, strips.len(), buses.len()),
        forall|i: int, j: int|
            0 <= i < j < outs.len() ==> (#[trigger] outs[i]).channel != (
            #[trigger] outs[j]).channel,
        forall|j: int| 0 <= j < outs.len() ==> (#[trigger] outs[j]).channel >= MONITOR_CHANNELS,
    ensures
        row(feed, outs, strips, buses, master, n).len() == MAX_OUTPUT_CHANNELS,
        forall|j: int|
            0 <= j < n ==> row(feed, outs, strips, buses, master, n)[(
            #[trigger] outs[j]).channel as int] == tapped(outs[j], strips, buses, master),
        row(feed, outs, strips, buses, master, n)[0] == feed.l,
        row(feed, outs, strips, buses, master, n)[1] == feed.r,
    decreases n,
{
    if n > 0 {
        every_direct_out_carries_its_tap(feed, outs, strips, buses, master, n - 1);
        let before = row(feed, outs, strips, buses, master, n - 1);
        let after = row(feed, outs, strips, buses, master, n);
        assert forall|j: int| 0 <= j < n implies after[(#[trigger] outs[j]).channel as int]
            == tapped(outs[j], strips, buses, master) by {
            if j < n - 1 {
                assert(outs[j].channel != outs[n - 1].channel);
            }
        }
    }
}

/// The plane once the first `n` frames of a block, from frame `done` on, have
/// their monitor pair from a stereo buffer.
pub open spec fn monitor_laid(
    plane: Seq<Single>,
    done: int,
    tape: Seq<Single>,
    n: int,
) -> Seq<Single>
    decreases n,
{
    if n <= 0 {
        plane
    } else {
        let base = (done + n - 1) * MAX_OUTPUT_CHANNELS;
        monitor_laid(plane, done, tape, n - 1).update(base, tape[2 * (n - 1)]).update(
            base + 1,
            tape[2 * (n - 1) + 1],
        )
    }
}

/// Puts a stereo buffer onto the monitor pair.
pub fn lay_monitor(plane: &mut Vec<Single>, done: usize, chunk: usize, tape: &Vec<Single>)
    requires
        (done + chunk) * MAX_OUTPUT_CHANNELS <= old(plane)@.len(),
        2 * chunk <= tape@.len(),
    ensures
        final(plane)@ == monitor_laid(old(plane)@, done as int, tape@, chunk as int),
        final(plane)@.len() == old(plane)@.len(),
{
    let ghost before = plane@;
    let length: usize = plane.len();
    let mut i: usize = 0;
    while i < chunk
        invariant
            i <= chunk,
            (done + chunk) * MAX_OUTPUT_CHANNELS <= before.len() == length,
            2 * chunk <= tape@.len(),
            plane@.len() == before.len(),
            plane@ == monitor_laid(before, done as int, tape@, i as int),
        decreases chunk - i,
    {
        let base: usize = (done + i) * MAX_OUTPUT_CHANNELS;
        plane[base] = tape[2 * i];
        plane[base + 1] = tape[2 * i + 1];
        i = i + 1;
    }
}

/// A take on the monitor pair leaves every other channel of the plane alone,
/// and every frame outside the block.
pub proof fn the_tape_stays_in_the_monitor_pair(
    plane: Seq<Single>,
    done: int,
    tape: Seq<Single>,
    n: int,
    frame: int,
    channel: int,
)
    requires
        0 <= done,
        0 <= n,
        (done + n) * MAX_OUTPUT_CHANNELS <= plane.len(),
        0 <= frame,
        0 <= channel < MAX_OUTPUT_CHANNELS,
        (frame + 1) * MAX_OUTPUT_CHANNELS <= plane.len(),
    ensures
        monitor_laid(plane, done, tape, n).len() == plane.len(),
        ({
            let at = frame * MAX_OUTPUT_CHANNELS + channel;
            monitor_laid(plane, done, tape, n)[at] == if channel < MONITOR_CHANNELS && done <= frame
                < done + n {
                tape[2 * (frame - done) + channel]
            } else {
                plane[at]
            }
        }),
    decreases n,
{
    if n > 0 {
        the_tape_stays_in_the_monitor_pair(plane, done, tape, n - 1, frame, channel);
    }
}

} // verus!
