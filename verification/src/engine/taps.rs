//! What a frame of the output plane carries, channel by channel.

use vstd::prelude::*;

use crate::engine::compiled::DirectOut;
use crate::engine::compiled::GraphView;
use crate::engine::compiled::StripSource;
use crate::engine::compiled::TapPoint;
use crate::engine::frame::listens;
use crate::engine::frame::row;
use crate::engine::frame::sample_of;
use crate::engine::frame::SampleAt;
use crate::engine::frame::Stereo;
use crate::engine::frame::TapLevels;
use crate::single::Single;

verus! {

/// One of the four samples of a node: before or after its fader, left or right.
pub open spec fn sample_at(levels: TapLevels, pre: bool, side: u16) -> Single {
    if pre && side == 0 {
        levels.pre.l
    } else if pre {
        levels.pre.r
    } else if side == 0 {
        levels.post.l
    } else {
        levels.post.r
    }
}

/// The outs lie within the plane's 64 channels, and none behind `j` is on the
/// channel of `j`.
pub open spec fn heard_last(outs: Seq<DirectOut>, j: int) -> bool {
    &&& 0 <= j < outs.len()
    &&& forall|k: int| 0 <= k < outs.len() ==> (#[trigger] outs[k]).channel < 64
    &&& forall|k: int| j < k < outs.len() ==> (#[trigger] outs[k]).channel != outs[j].channel
}

proof fn lemma_row_len(
    feed: Stereo,
    outs: Seq<DirectOut>,
    strips: Seq<TapLevels>,
    buses: Seq<TapLevels>,
    master: TapLevels,
    n: int,
)
    requires
        n <= outs.len(),
        forall|k: int| 0 <= k < outs.len() ==> (#[trigger] outs[k]).channel < 64,
    ensures
        row(feed, outs, strips, buses, master, n).len() == 64,
    decreases n,
{
    if n > 0 {
        lemma_row_len(feed, outs, strips, buses, master, n - 1);
        assert(outs[n - 1].channel < 64);
    }
}

proof fn lemma_untouched(
    feed: Stereo,
    outs: Seq<DirectOut>,
    strips: Seq<TapLevels>,
    buses: Seq<TapLevels>,
    master: TapLevels,
    m: int,
    n: int,
    channel: int,
)
    requires
        0 <= m <= n <= outs.len(),
        forall|k: int| 0 <= k < outs.len() ==> (#[trigger] outs[k]).channel < 64,
        forall|k: int| m <= k < n ==> (#[trigger] outs[k]).channel != channel,
        0 <= channel < 64,
    ensures
        row(feed, outs, strips, buses, master, n)[channel] == row(
            feed,
            outs,
            strips,
            buses,
            master,
            m,
        )[channel],
    decreases n,
{
    if m < n {
        lemma_row_len(feed, outs, strips, buses, master, n - 1);
        lemma_untouched(feed, outs, strips, buses, master, m, n - 1, channel);
        assert(outs[n - 1].channel != channel);
    }
}

proof fn lemma_written(
    feed: Stereo,
    outs: Seq<DirectOut>,
    strips: Seq<TapLevels>,
    buses: Seq<TapLevels>,
    master: TapLevels,
    j: int,
    levels: TapLevels,
)
    requires
        heard_last(outs, j),
        match outs[j].source {
            TapPoint::Strip(i) => levels == strips[i as int],
            TapPoint::Bus(i) => levels == buses[i as int],
            TapPoint::Master => levels == master,
        },
    ensures
        row(feed, outs, strips, buses, master, outs.len() as int)[outs[j].channel as int]
            == sample_at(levels, outs[j].pre, outs[j].side),
{
    lemma_row_len(feed, outs, strips, buses, master, j);
    lemma_untouched(
        feed,
        outs,
        strips,
        buses,
        master,
        j + 1,
        outs.len() as int,
        outs[j].channel as int,
    );
}

/// The channel of an out that names a strip carries that strip: the sample before
/// its fader where the out taps there, the one behind it otherwise, and the side
/// that the out names. The last out on a channel is the one heard.
pub proof fn an_out_of_a_strip_carries_the_strip(
    feed: Stereo,
    outs: Seq<DirectOut>,
    strips: Seq<TapLevels>,
    buses: Seq<TapLevels>,
    master: TapLevels,
    j: int,
    i: u16,
)
    requires
        heard_last(outs, j),
        outs[j].source == TapPoint::Strip(i),
        i < strips.len(),
    ensures
        ({
            let heard = row(feed, outs, strips, buses, master, outs.len() as int)[outs[j].channel
                as int];
            &&& outs[j].pre && outs[j].side == 0 ==> heard == strips[i as int].pre.l
            &&& outs[j].pre && outs[j].side != 0 ==> heard == strips[i as int].pre.r
            &&& !outs[j].pre && outs[j].side == 0 ==> heard == strips[i as int].post.l
            &&& !outs[j].pre && outs[j].side != 0 ==> heard == strips[i as int].post.r
        }),
{
    lemma_written(feed, outs, strips, buses, master, j, strips[i as int]);
}

/// The channel of an out that names a bus carries that bus.
pub proof fn an_out_of_a_bus_carries_the_bus(
    feed: Stereo,
    outs: Seq<DirectOut>,
    strips: Seq<TapLevels>,
    buses: Seq<TapLevels>,
    master: TapLevels,
    j: int,
    b: u16,
)
    requires
        heard_last(outs, j),
        outs[j].source == TapPoint::Bus(b),
        b < buses.len(),
    ensures
        ({
            let heard = row(feed, outs, strips, buses, master, outs.len() as int)[outs[j].channel
                as int];
            &&& outs[j].pre && outs[j].side == 0 ==> heard == buses[b as int].pre.l
            &&& outs[j].pre && outs[j].side != 0 ==> heard == buses[b as int].pre.r
            &&& !outs[j].pre && outs[j].side == 0 ==> heard == buses[b as int].post.l
            &&& !outs[j].pre && outs[j].side != 0 ==> heard == buses[b as int].post.r
        }),
{
    lemma_written(feed, outs, strips, buses, master, j, buses[b as int]);
}

/// The channel of an out that names the master carries the master.
pub proof fn an_out_of_the_master_carries_the_master(
    feed: Stereo,
    outs: Seq<DirectOut>,
    strips: Seq<TapLevels>,
    buses: Seq<TapLevels>,
    master: TapLevels,
    j: int,
)
    requires
        heard_last(outs, j),
        outs[j].source == TapPoint::Master,
    ensures
        ({
            let heard = row(feed, outs, strips, buses, master, outs.len() as int)[outs[j].channel
                as int];
            &&& outs[j].pre && outs[j].side == 0 ==> heard == master.pre.l
            &&& outs[j].pre && outs[j].side != 0 ==> heard == master.pre.r
            &&& !outs[j].pre && outs[j].side == 0 ==> heard == master.post.l
            &&& !outs[j].pre && outs[j].side != 0 ==> heard == master.post.r
        }),
{
    lemma_written(feed, outs, strips, buses, master, j, master);
}

/// What an out carries rests on the node it names and on nothing else: two frames
/// in which that node sounds the same give the same sample, whatever the monitor
/// feed and the other nodes do.
pub proof fn an_out_depends_on_its_node_alone(
    feed: Stereo,
    strips: Seq<TapLevels>,
    buses: Seq<TapLevels>,
    master: TapLevels,
    other_feed: Stereo,
    other_strips: Seq<TapLevels>,
    other_buses: Seq<TapLevels>,
    other_master: TapLevels,
    outs: Seq<DirectOut>,
    j: int,
)
    requires
        heard_last(outs, j),
        outs[j].source matches TapPoint::Strip(i) ==> strips[i as int] == other_strips[i as int],
        outs[j].source matches TapPoint::Bus(b) ==> buses[b as int] == other_buses[b as int],
        outs[j].source is Master ==> master == other_master,
    ensures
        row(feed, outs, strips, buses, master, outs.len() as int)[outs[j].channel as int] == row(
            other_feed,
            outs,
            other_strips,
            other_buses,
            other_master,
            outs.len() as int,
        )[outs[j].channel as int],
{
    let levels = match outs[j].source {
        TapPoint::Strip(i) => strips[i as int],
        TapPoint::Bus(b) => buses[b as int],
        TapPoint::Master => master,
    };
    lemma_written(feed, outs, strips, buses, master, j, levels);
    lemma_written(other_feed, outs, other_strips, other_buses, other_master, j, levels);
}

/// Where no out is, the first two channels carry the monitor feed, left and right,
/// and every other one is silent.
pub proof fn a_channel_without_an_out(
    feed: Stereo,
    outs: Seq<DirectOut>,
    strips: Seq<TapLevels>,
    buses: Seq<TapLevels>,
    master: TapLevels,
    channel: int,
)
    requires
        0 <= channel < 64,
        forall|k: int| 0 <= k < outs.len() ==> (#[trigger] outs[k]).channel < 64,
        forall|k: int| 0 <= k < outs.len() ==> (#[trigger] outs[k]).channel != channel,
    ensures
        row(feed, outs, strips, buses, master, outs.len() as int).len() == 64,
        ({
            let heard = row(feed, outs, strips, buses, master, outs.len() as int)[channel];
            &&& channel == 0 ==> heard == feed.l
            &&& channel == 1 ==> heard == feed.r
            &&& channel >= 2 ==> heard.bits == 0
        }),
{
    lemma_row_len(feed, outs, strips, buses, master, outs.len() as int);
    lemma_untouched(feed, outs, strips, buses, master, 0, outs.len() as int, channel);
}

/// A strip reads its own channel of the frame at hand: a device channel from the
/// input block, an instrument's from the rack's block, frames of so many channels
/// one behind the other. A channel that the block does not have is silent.
pub proof fn a_strip_reads_its_channel(
    c: u16,
    frame: int,
    inputs: int,
    rack: int,
)
    requires
        0 <= frame,
        0 <= inputs,
        0 <= rack,
        (frame + 1) * inputs <= usize::MAX,
        (frame + 1) * rack <= usize::MAX,
    ensures
        sample_of(StripSource::Silence, frame, inputs, rack) == SampleAt::Silence,
        c < inputs ==> (sample_of(StripSource::Input(c), frame, inputs, rack) matches
            SampleAt::Input(at) && at == frame * inputs + c),
        c >= inputs ==> sample_of(StripSource::Input(c), frame, inputs, rack)
            == SampleAt::Silence,
        c < rack ==> (sample_of(StripSource::Instrument(c), frame, inputs, rack) matches
            SampleAt::Instrument(at) && at == frame * rack + c),
        c >= rack ==> sample_of(StripSource::Instrument(c), frame, inputs, rack)
            == SampleAt::Silence,
{
    assert((frame + 1) * inputs == frame * inputs + inputs) by (nonlinear_arith);
    assert((frame + 1) * rack == frame * rack + rack) by (nonlinear_arith);
    assert(0 <= frame * inputs && 0 <= frame * rack) by (nonlinear_arith)
        requires
            0 <= frame,
            0 <= inputs,
            0 <= rack,
    ;
}

/// The desk listens where one strip or one bus is on PFL, and only there.
pub proof fn pfl_on_any_channel_is_heard(g: GraphView, i: int)
    ensures
        0 <= i < g.strips.len() && g.strips[i].pfl ==> listens(g),
        0 <= i < g.buses.len() && g.buses[i].pfl ==> listens(g),
        (forall|k: int| 0 <= k < g.strips.len() ==> !(#[trigger] g.strips[k]).pfl) && (forall|k: int|
            0 <= k < g.buses.len() ==> !(#[trigger] g.buses[k]).pfl) ==> !listens(g),
{
}

} // verus!
