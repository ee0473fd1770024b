//! One callback's work as a whole: how many chunks it has, what they leave behind in
//! the clocks and the meters, and what the tape return does to the plane.

use vstd::prelude::*;

use crate::engine::engine::chunk_frames;
use crate::engine::engine::finished;
use crate::engine::engine::meters;
use crate::engine::engine::tape_laid;
use crate::engine::engine::ChunkEnd;
use crate::engine::engine::EngineView;
use crate::engine::frame::the_tape_stays_in_the_monitor_pair;
use crate::engine::playback::Pull;
use crate::engine::rings::MonitorTarget;
use crate::engine::slots::MAX_OUTPUT_CHANNELS;
use crate::engine::slots::MONITOR_CHANNELS;
use crate::single::Single;

verus! {

/// The frames of a call, if its output is a whole number of frames and its input has
/// as many.
pub fn call_frames(output: usize, input: usize, input_channels: usize) -> (frames: Option<usize>)
    ensures
        match frames {
            Some(f) => output == f * MAX_OUTPUT_CHANNELS && input == f * input_channels,
            None => forall|f: int|
                #![trigger f * MAX_OUTPUT_CHANNELS]
                !(output == f * MAX_OUTPUT_CHANNELS && input == f * input_channels),
        },
{
    let frames: usize = output / MAX_OUTPUT_CHANNELS;
    if output % MAX_OUTPUT_CHANNELS != 0 {
        return None;
    }
    match frames.checked_mul(input_channels) {
        Some(needed) => if needed == input {
            Some(frames)
        } else {
            None
        },
        None => None,
    }
}

/// The frames that are done after the first `k` chunks of a call.
pub open spec fn done_after(frames: int, block_size: int, k: int) -> int
    decreases k,
{
    if k <= 0 {
        0
    } else {
        let done = done_after(frames, block_size, k - 1);
        done + chunk_frames(frames, block_size, done)
    }
}

/// The blocks that a call starts: its frames over the block size, rounded up.
pub open spec fn blocks(frames: int, block_size: int) -> int {
    (frames + block_size - 1) / block_size
}

proof fn lemma_done(frames: int, block_size: int, k: int)
    requires
        0 <= frames,
        0 < block_size,
        0 <= k,
    ensures
        done_after(frames, block_size, k) == if k * block_size < frames {
            k * block_size
        } else {
            frames
        },
    decreases k,
{
    if k > 0 {
        lemma_done(frames, block_size, k - 1);
        assert(k * block_size == (k - 1) * block_size + block_size) by (nonlinear_arith);
    } else {
        assert(0 * block_size == 0) by (nonlinear_arith);
    }
}

/// A call has as many chunks as it starts blocks: in front of each of them there is
/// something left to do, and behind the last there is nothing.
pub proof fn a_call_has_one_chunk_per_started_block(frames: int, block_size: int, k: int)
    requires
        0 <= frames,
        0 < block_size,
        0 <= k,
    ensures
        k < blocks(frames, block_size) <==> done_after(frames, block_size, k) < frames,
        done_after(frames, block_size, blocks(frames, block_size)) == frames,
        0 <= blocks(frames, block_size),
{
    let n = blocks(frames, block_size);
    let q = frames + block_size - 1;
    assert(n * block_size <= q && q < n * block_size + block_size && 0 <= n) by (nonlinear_arith)
        requires
            n == q / block_size,
            0 < block_size,
            0 <= q,
    ;
    assert(k < n ==> k * block_size + block_size <= n * block_size) by (nonlinear_arith)
        requires
            0 < block_size,
    ;
    assert(n <= k ==> n * block_size <= k * block_size) by (nonlinear_arith)
        requires
            0 < block_size,
    ;
    lemma_done(frames, block_size, k);
    lemma_done(frames, block_size, n);
}

/// Whether an engine differs from an earlier state in no more than rendering
/// changes: the sound, what is captured of it, and how far the tape was read.
pub open spec fn rendered<D, G>(before: EngineView<D, G>, after: EngineView<D, G>) -> bool {
    &&& after.graph.block_size == before.graph.block_size
    &&& after.graph.meter_count == before.graph.meter_count
    &&& after.monitor == before.monitor
    &&& after.frame == before.frame
    &&& after.sample_frame == before.sample_frame
    &&& after.handed == before.handed
    &&& after.metered == before.metered
    &&& after.streamed == before.streamed
}

/// Whether a call went through these states: each chunk is as long as the next one
/// has to be, is rendered, and is finished. `states` are those in front of each chunk
/// and behind the last, `ready` those between rendering and finishing.
pub open spec fn went_through<D, G>(
    frames: int,
    states: Seq<EngineView<D, G>>,
    ready: Seq<EngineView<D, G>>,
    ends: Seq<ChunkEnd>,
) -> bool {
    let block_size = states[0].graph.block_size as int;
    &&& states.len() == ends.len() + 1
    &&& ready.len() == ends.len()
    &&& ends.len() == blocks(frames, block_size)
    &&& forall|k: int|
        0 <= k < ends.len() ==> {
            &&& (#[trigger] ends[k]).chunk == chunk_frames(
                frames,
                block_size,
                done_after(frames, block_size, k),
            )
            &&& rendered(states[k], ready[k])
            &&& states[k + 1] == finished(ready[k], ends[k])
        }
}

proof fn lemma_went<D, G>(
    frames: int,
    states: Seq<EngineView<D, G>>,
    ready: Seq<EngineView<D, G>>,
    ends: Seq<ChunkEnd>,
    k: int,
)
    requires
        0 <= frames,
        0 < states[0].graph.block_size,
        went_through(frames, states, ready, ends),
        states[0].frame + ends.len() <= u64::MAX,
        states[0].sample_frame + frames <= u64::MAX,
        0 <= k <= ends.len(),
    ensures
        ({
            let e = states[0];
            let block_size = e.graph.block_size as int;
            &&& states[k].graph.block_size == block_size
            &&& states[k].graph.meter_count == e.graph.meter_count
            &&& states[k].monitor == e.monitor
            &&& states[k].frame == e.frame + k
            &&& states[k].sample_frame == e.sample_frame + done_after(frames, block_size, k)
            &&& states[k].metered.len() == e.metered.len() + k
            &&& e.metered.is_prefix_of(states[k].metered)
        }),
    decreases k,
{
    if k > 0 {
        lemma_went(frames, states, ready, ends, k - 1);
        let block_size = states[0].graph.block_size as int;
        lemma_done(frames, block_size, k);
        lemma_done(frames, block_size, k - 1);
        let end = ends[k - 1];
        let e = states[0];
        assert(rendered(states[k - 1], ready[k - 1]));
        assert(states[k - 1 + 1] == finished(ready[k - 1], end));
        assert(end.chunk == chunk_frames(
            frames,
            block_size,
            done_after(frames, block_size, k - 1),
        ));
        assert(states[k].metered == states[k - 1].metered.push(seq![meters(ready[k - 1], end)]));
        assert(e.metered.is_prefix_of(states[k].metered));
        assert(states[k].graph == ready[k - 1].graph);
    }
}

proof fn lemma_metered<D, G>(
    frames: int,
    states: Seq<EngineView<D, G>>,
    ready: Seq<EngineView<D, G>>,
    ends: Seq<ChunkEnd>,
    k: int,
    j: int,
)
    requires
        0 <= frames,
        0 < states[0].graph.block_size,
        went_through(frames, states, ready, ends),
        states[0].frame + ends.len() <= u64::MAX,
        states[0].sample_frame + frames <= u64::MAX,
        0 <= j < k <= ends.len(),
    ensures
        states[k].metered[states[0].metered.len() + j] == seq![meters(ready[j], ends[j])],
        ready[j].frame == states[0].frame + j,
        ready[j].graph.meter_count == states[0].graph.meter_count,
    decreases k,
{
    lemma_went(frames, states, ready, ends, k - 1);
    let end = ends[k - 1];
    assert(rendered(states[k - 1], ready[k - 1]));
    assert(states[k - 1 + 1] == finished(ready[k - 1], end));
    assert(states[k].metered == states[k - 1].metered.push(seq![meters(ready[k - 1], end)]));
    if j < k - 1 {
        lemma_metered(frames, states, ready, ends, k - 1, j);
    }
}

/// Over a whole call the engine offers one meter block per started block, each with
/// the number of its own block, and the clocks move on by the blocks and by the
/// frames.
pub proof fn a_call_offers_one_meter_block_per_started_block<D, G>(
    frames: int,
    states: Seq<EngineView<D, G>>,
    ready: Seq<EngineView<D, G>>,
    ends: Seq<ChunkEnd>,
)
    requires
        0 <= frames,
        0 < states[0].graph.block_size,
        went_through(frames, states, ready, ends),
        states[0].frame + ends.len() <= u64::MAX,
        states[0].sample_frame + frames <= u64::MAX,
    ensures
        ({
            let before = states[0];
            let after = states.last();
            let n = blocks(frames, before.graph.block_size as int);
            &&& after.metered.len() == before.metered.len() + n
            &&& before.metered.is_prefix_of(after.metered)
            &&& forall|k: int|
                0 <= k < n ==> {
                    let block = #[trigger] after.metered[before.metered.len() + k];
                    &&& block.len() == 1
                    &&& block[0].frame == before.frame + k
                    &&& block[0].count == before.graph.meter_count as u8
                    &&& block[0].peak == ends[k].peak
                    &&& block[0].clip_bits == ends[k].clip_bits
                }
            &&& after.frame == before.frame + n
            &&& after.sample_frame == before.sample_frame + frames
        }),
{
    let before = states[0];
    let after = states.last();
    let block_size = before.graph.block_size as int;
    let n = blocks(frames, block_size);
    a_call_has_one_chunk_per_started_block(frames, block_size, 0);
    lemma_went(frames, states, ready, ends, n);
    assert forall|k: int| 0 <= k < n implies {
        let block = #[trigger] after.metered[before.metered.len() + k];
        &&& block.len() == 1
        &&& block[0].frame == before.frame + k
        &&& block[0].count == before.graph.meter_count as u8
        &&& block[0].peak == ends[k].peak
        &&& block[0].clip_bits == ends[k].clip_bits
    } by {
        lemma_metered(frames, states, ready, ends, n, k);
    }
}

/// The tape leaves the meters alone: two engines that start alike and meter the same
/// levels offer the same meter blocks, whatever tape either of them plays.
pub proof fn the_tape_leaves_the_meters_alone<D, G>(
    frames: int,
    states: Seq<EngineView<D, G>>,
    ready: Seq<EngineView<D, G>>,
    ends: Seq<ChunkEnd>,
    other_states: Seq<EngineView<D, G>>,
    other_ready: Seq<EngineView<D, G>>,
    other_ends: Seq<ChunkEnd>,
)
    requires
        0 <= frames,
        0 < states[0].graph.block_size,
        went_through(frames, states, ready, ends),
        went_through(frames, other_states, other_ready, other_ends),
        states[0].frame + ends.len() <= u64::MAX,
        states[0].sample_frame + frames <= u64::MAX,
        other_states[0].graph == states[0].graph,
        other_states[0].metered == states[0].metered,
        other_states[0].frame == states[0].frame,
        other_states[0].sample_frame == states[0].sample_frame,
        forall|k: int|
            0 <= k < ends.len() ==> (#[trigger] other_ends[k]).peak == ends[k].peak
                && other_ends[k].clip_bits == ends[k].clip_bits,
    ensures
        other_states.last().metered == states.last().metered,
        other_states.last().frame == states.last().frame,
        other_states.last().sample_frame == states.last().sample_frame,
{
    a_call_offers_one_meter_block_per_started_block(frames, states, ready, ends);
    a_call_offers_one_meter_block_per_started_block(
        frames,
        other_states,
        other_ready,
        other_ends,
    );
    let a = states.last().metered;
    let b = other_states.last().metered;
    let held = states[0].metered;
    let n = blocks(frames, states[0].graph.block_size as int);
    assert forall|i: int| 0 <= i < a.len() implies a[i] == b[i] by {
        if i < held.len() {
            assert(a[i] == held[i] && b[i] == held[i]);
        } else {
            let k = i - held.len();
            lemma_metered(frames, states, ready, ends, n, k);
            lemma_metered(frames, other_states, other_ready, other_ends, n, k);
            assert(other_ends[k].peak == ends[k].peak);
            assert(meters(ready[k], ends[k]) == meters(other_ready[k], other_ends[k]));
        }
    }
    assert(a =~= b);
}

/// The plane after the mix of a chunk is in it: the chunk's frames are those of the
/// mix, and the others are as they were.
pub open spec fn mixed(plane: Seq<Single>, done: int, mix: Seq<Single>) -> Seq<Single> {
    let from = done * MAX_OUTPUT_CHANNELS;
    Seq::new(
        plane.len(),
        |at: int|
            if from <= at < from + mix.len() {
                mix[at - from]
            } else {
                plane[at]
            },
    )
}

/// The plane after the first `k` chunks of a call: each is mixed, and then has the
/// tape laid over it.
pub open spec fn plane_after(
    plane: Seq<Single>,
    frames: int,
    block_size: int,
    monitor: MonitorTarget,
    mixes: Seq<Seq<Single>>,
    ends: Seq<ChunkEnd>,
    k: int,
) -> Seq<Single>
    decreases k,
{
    if k <= 0 {
        plane
    } else {
        let before = plane_after(plane, frames, block_size, monitor, mixes, ends, k - 1);
        let done = done_after(frames, block_size, k - 1);
        tape_laid(mixed(before, done, mixes[k - 1]), monitor, done, ends[k - 1])
    }
}

/// The plane after the first `k` chunks of a call in which no tape is played.
pub open spec fn mix_after(
    plane: Seq<Single>,
    frames: int,
    block_size: int,
    mixes: Seq<Seq<Single>>,
    k: int,
) -> Seq<Single>
    decreases k,
{
    if k <= 0 {
        plane
    } else {
        mixed(
            mix_after(plane, frames, block_size, mixes, k - 1),
            done_after(frames, block_size, k - 1),
            mixes[k - 1],
        )
    }
}

/// Whether the mixes and tapes of a call are as long as its chunks.
pub open spec fn chunks_fit(
    frames: int,
    block_size: int,
    mixes: Seq<Seq<Single>>,
    ends: Seq<ChunkEnd>,
) -> bool {
    &&& ends.len() == blocks(frames, block_size)
    &&& mixes.len() == ends.len()
    &&& forall|k: int|
        0 <= k < ends.len() ==> {
            let chunk = chunk_frames(frames, block_size, done_after(frames, block_size, k));
            &&& (#[trigger] ends[k]).chunk == chunk
            &&& mixes[k].len() == chunk * MAX_OUTPUT_CHANNELS
        }
}

/// Whether a chunk has the tape on the monitor pair.
pub open spec fn takes_over(monitor: MonitorTarget, end: ChunkEnd) -> bool {
    monitor == MonitorTarget::Hardware && (end.pull matches Some(Pull::Frames(_)))
}

/// Over a whole call the tape changes the monitor pair alone, and there only the
/// frames of the chunks in which it plays to the hardware: those are the tape's.
/// Everything else is as without a tape.
pub proof fn over_a_call_the_tape_stays_in_the_monitor_pair(
    plane: Seq<Single>,
    frames: int,
    block_size: int,
    monitor: MonitorTarget,
    mixes: Seq<Seq<Single>>,
    ends: Seq<ChunkEnd>,
    k: int,
    frame: int,
    channel: int,
)
    requires
        0 <= frames,
        0 < block_size,
        plane.len() == frames * MAX_OUTPUT_CHANNELS,
        chunks_fit(frames, block_size, mixes, ends),
        0 <= k <= ends.len(),
        0 <= frame < frames,
        0 <= channel < MAX_OUTPUT_CHANNELS,
    ensures
        ({
            let wet = plane_after(plane, frames, block_size, monitor, mixes, ends, k);
            let dry = mix_after(plane, frames, block_size, mixes, k);
            let at = frame * MAX_OUTPUT_CHANNELS + channel;
            let j = frame / block_size;
            &&& wet.len() == plane.len()
            &&& dry.len() == plane.len()
            &&& wet[at] == if channel < MONITOR_CHANNELS && j < k && takes_over(monitor, ends[j]) {
                ends[j].tape[2 * (frame - done_after(frames, block_size, j)) + channel]
            } else {
                dry[at]
            }
        }),
    decreases k,
{
    let j = frame / block_size;
    let at = frame * MAX_OUTPUT_CHANNELS + channel;
    assert(j * block_size <= frame && frame < j * block_size + block_size && 0 <= j)
        by (nonlinear_arith)
        requires
            j == frame / block_size,
            0 < block_size,
            0 <= frame,
    ;
    if k > 0 {
        over_a_call_the_tape_stays_in_the_monitor_pair(
            plane,
            frames,
            block_size,
            monitor,
            mixes,
            ends,
            k - 1,
            frame,
            channel,
        );
        a_call_has_one_chunk_per_started_block(frames, block_size, k - 1);
        lemma_done(frames, block_size, k - 1);
        lemma_done(frames, block_size, j);
        let done = done_after(frames, block_size, k - 1);
        let end = ends[k - 1];
        let wet = plane_after(plane, frames, block_size, monitor, mixes, ends, k - 1);
        let dry = mix_after(plane, frames, block_size, mixes, k - 1);
        let chunk = end.chunk as int;
        assert(chunk == chunk_frames(frames, block_size, done));
        assert(j < k - 1 ==> j * block_size + block_size <= (k - 1) * block_size)
            by (nonlinear_arith)
            requires
                0 < block_size,
        ;
        assert(k - 1 < j ==> (k - 1) * block_size + block_size <= j * block_size)
            by (nonlinear_arith)
            requires
                0 < block_size,
        ;
        assert(done == (k - 1) * block_size);
        assert(done <= frame < done + chunk <==> j == k - 1);
        if takes_over(monitor, end) {
            the_tape_stays_in_the_monitor_pair(
                mixed(wet, done, mixes[k - 1]),
                done,
                end.tape,
                chunk,
                frame,
                channel,
            );
        }
    }
}

/// Where a channel of a frame lies in a plane.
pub open spec fn place(frame: int, channel: int) -> int {
    frame * MAX_OUTPUT_CHANNELS + channel
}

/// Two engines that are alike but for a tape return to the hardware monitor, in the
/// same call: every channel but those of the monitor pair is the same in both, the
/// one without a tape puts out the mix alone, and both offer the same meter blocks,
/// one per started block.
pub proof fn engines_alike_but_for_a_tape<D, G>(
    plane: Seq<Single>,
    frames: int,
    mixes: Seq<Seq<Single>>,
    states: Seq<EngineView<D, G>>,
    ready: Seq<EngineView<D, G>>,
    ends: Seq<ChunkEnd>,
    other_states: Seq<EngineView<D, G>>,
    other_ready: Seq<EngineView<D, G>>,
    other_ends: Seq<ChunkEnd>,
)
    requires
        0 <= frames,
        0 < states[0].graph.block_size,
        plane.len() == frames * MAX_OUTPUT_CHANNELS,
        states[0].monitor == MonitorTarget::Hardware,
        states[0].frame + ends.len() <= u64::MAX,
        states[0].sample_frame + frames <= u64::MAX,
        other_states[0] == (EngineView { playback: None, ..states[0] }),
        went_through(frames, states, ready, ends),
        went_through(frames, other_states, other_ready, other_ends),
        mixes.len() == ends.len(),
        forall|k: int|
            0 <= k < ends.len() ==> {
                &&& (#[trigger] other_ends[k]).pull is None
                &&& other_ends[k].peak == ends[k].peak
                &&& other_ends[k].clip_bits == ends[k].clip_bits
                &&& mixes[k].len() == ends[k].chunk * MAX_OUTPUT_CHANNELS
            },
    ensures
        ({
            let block_size = states[0].graph.block_size as int;
            let monitor = MonitorTarget::Hardware;
            let n = blocks(frames, block_size);
            let with_tape = plane_after(plane, frames, block_size, monitor, mixes, ends, n);
            let without = plane_after(plane, frames, block_size, monitor, mixes, other_ends, n);
            &&& with_tape.len() == without.len() == plane.len()
            &&& forall|frame: int, channel: int|
                0 <= frame < frames && MONITOR_CHANNELS <= channel < MAX_OUTPUT_CHANNELS
                    ==> with_tape[#[trigger] place(frame, channel)] == without[place(
                    frame,
                    channel,
                )]
            &&& without == mix_after(plane, frames, block_size, mixes, n)
            &&& other_states.last().metered == states.last().metered
            &&& states.last().metered.len() == states[0].metered.len() + n
        }),
{
    let block_size = states[0].graph.block_size as int;
    let monitor = MonitorTarget::Hardware;
    let n = blocks(frames, block_size);
    let with_tape = plane_after(plane, frames, block_size, monitor, mixes, ends, n);
    let without = plane_after(plane, frames, block_size, monitor, mixes, other_ends, n);
    a_call_has_one_chunk_per_started_block(frames, block_size, 0);
    the_tape_leaves_the_meters_alone(
        frames,
        states,
        ready,
        ends,
        other_states,
        other_ready,
        other_ends,
    );
    a_call_offers_one_meter_block_per_started_block(frames, states, ready, ends);
    assert forall|k: int| 0 <= k < ends.len() implies {
        let chunk = chunk_frames(frames, block_size, done_after(frames, block_size, k));
        &&& (#[trigger] ends[k]).chunk == chunk
        &&& mixes[k].len() == chunk * MAX_OUTPUT_CHANNELS
    } by {
        assert(other_ends[k].pull is None);
    }
    assert(chunks_fit(frames, block_size, mixes, ends));
    lemma_without_a_tape(plane, frames, block_size, monitor, mixes, other_ends, n);
    if frames > 0 {
        over_a_call_the_tape_stays_in_the_monitor_pair(
            plane,
            frames,
            block_size,
            monitor,
            mixes,
            ends,
            n,
            0,
            0,
        );
    }
    assert forall|frame: int, channel: int|
        0 <= frame < frames && MONITOR_CHANNELS <= channel < MAX_OUTPUT_CHANNELS implies with_tape[
    #[trigger] place(frame, channel)] == without[place(frame, channel)] by {
        over_a_call_the_tape_stays_in_the_monitor_pair(
            plane,
            frames,
            block_size,
            monitor,
            mixes,
            ends,
            n,
            frame,
            channel,
        );
    }
}

proof fn lemma_without_a_tape(
    plane: Seq<Single>,
    frames: int,
    block_size: int,
    monitor: MonitorTarget,
    mixes: Seq<Seq<Single>>,
    ends: Seq<ChunkEnd>,
    k: int,
)
    requires
        0 <= k <= ends.len(),
        forall|j: int| 0 <= j < ends.len() ==> (#[trigger] ends[j]).pull is None,
    ensures
        plane_after(plane, frames, block_size, monitor, mixes, ends, k) == mix_after(
            plane,
            frames,
            block_size,
            mixes,
            k,
        ),
    decreases k,
{
    if k > 0 {
        lemma_without_a_tape(plane, frames, block_size, monitor, mixes, ends, k - 1);
        assert(ends[k - 1].pull is None);
    }
}

} // verus!
