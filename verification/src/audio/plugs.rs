//! Where devices are plugged in, and which sample goes where.

use vstd::prelude::*;
use vstd::arithmetic::div_mod::lemma_fundamental_div_mod_converse;

use crate::audio::assembler::assembled;
use crate::audio::assembler::covers;
use crate::audio::assembler::devices_land_at_their_offsets;
use crate::audio::assembler::missed;
use crate::audio::assembler::only_whole_rows_are_sent;
use crate::audio::assembler::popped;
use crate::audio::assembler::rows_dropped;
use crate::audio::assembler::rows_offered;
use crate::audio::assembler::rows_sent;
use crate::audio::assembler::Attached;
use crate::audio::bay::attached;
use crate::audio::bay::bay_after;
use crate::audio::bay::bay_after_all;
use crate::audio::bay::detached;
use crate::audio::bay::free_from;
use crate::audio::bay::held_from;
use crate::audio::bay::BayCmd;
use crate::audio::bay::BayView;
use crate::audio::bay::Placed;
use crate::audio::disassembler::pair_of;
use crate::audio::disassembler::pair_sent;
use crate::audio::disassembler::AttachedOutput;
use crate::audio::duplex::captured;
use crate::audio::duplex::played;
use crate::audio::duplex::Routing;
use crate::single::Single;

verus! {

proof fn lemma_free<A>(slots: Seq<Option<A>>, from: int, i: int)
    requires
        0 <= from <= i < slots.len(),
        slots[i] is None,
        forall|j: int| from <= j < i ==> (#[trigger] slots[j]) is Some,
    ensures
        free_from(slots, from) == Some(i),
    decreases i - from,
{
    if from < i {
        assert(slots[from] is Some);
        lemma_free(slots, from + 1, i);
    }
}

proof fn lemma_full<A>(slots: Seq<Option<A>>, from: int)
    requires
        0 <= from,
        forall|j: int| from <= j < slots.len() ==> (#[trigger] slots[j]) is Some,
    ensures
        free_from(slots, from) is None,
    decreases slots.len() - from,
{
    if from < slots.len() {
        assert(slots[from] is Some);
        lemma_full(slots, from + 1);
    }
}

proof fn lemma_held<A: Placed>(slots: Seq<Option<A>>, offset: u16, from: int, i: int)
    requires
        0 <= from <= i < slots.len(),
        slots[i] is Some,
        slots[i]->0.place() == offset,
        forall|j: int|
            from <= j < i ==> ((#[trigger] slots[j]) matches Some(other) ==> other.place()
                != offset),
    ensures
        held_from(slots, offset, from) == Some(i),
    decreases i - from,
{
    if from < i {
        assert(slots[from] matches Some(other) ==> other.place() != offset);
        lemma_held(slots, offset, from + 1, i);
    }
}

proof fn lemma_not_held<A: Placed>(slots: Seq<Option<A>>, offset: u16, from: int)
    requires
        0 <= from,
        forall|j: int|
            from <= j < slots.len() ==> ((#[trigger] slots[j]) matches Some(other)
                ==> other.place() != offset),
    ensures
        held_from(slots, offset, from) is None,
    decreases slots.len() - from,
{
    if from < slots.len() {
        assert(slots[from] matches Some(other) ==> other.place() != offset);
        lemma_not_held(slots, offset, from + 1);
    }
}

/// A device that fits the frame goes into the first free slot. One that does not fit,
/// and one for which there is no slot, is given back at once.
pub proof fn a_device_takes_the_first_free_slot<A: Placed>(bay: BayView<A>, device: A, i: int)
    ensures
        device.place() + device.width() > bay.frame ==> {
            &&& attached(bay, device).slots == bay.slots
            &&& attached(bay, device).handed == bay.handed.push(device)
        },
        device.place() + device.width() <= bay.frame && 0 <= i < bay.slots.len() && bay.slots[i]
            is None && (forall|j: int| 0 <= j < i ==> (#[trigger] bay.slots[j]) is Some) ==> {
            &&& attached(bay, device).slots == bay.slots.update(i, Some(device))
            &&& attached(bay, device).handed == bay.handed
        },
        (forall|j: int| 0 <= j < bay.slots.len() ==> (#[trigger] bay.slots[j]) is Some) ==> {
            &&& attached(bay, device).slots == bay.slots
            &&& attached(bay, device).handed == bay.handed.push(device)
        },
        attached(bay, device).frame == bay.frame,
{
    if 0 <= i < bay.slots.len() && bay.slots[i] is None && (forall|j: int|
        0 <= j < i ==> (#[trigger] bay.slots[j]) is Some) {
        lemma_free(bay.slots, 0, i);
    }
    if forall|j: int| 0 <= j < bay.slots.len() ==> (#[trigger] bay.slots[j]) is Some {
        lemma_full(bay.slots, 0);
    }
}

/// The device at an offset leaves its slot and is given back. Where none is there,
/// nothing happens.
pub proof fn a_device_leaves_its_slot<A: Placed>(bay: BayView<A>, offset: u16, i: int)
    ensures
        0 <= i < bay.slots.len() && bay.slots[i] is Some && bay.slots[i]->0.place() == offset && (
        forall|j: int|
            0 <= j < i ==> ((#[trigger] bay.slots[j]) matches Some(other) ==> other.place()
                != offset)) ==> {
            &&& detached(bay, offset).slots == bay.slots.update(i, None)
            &&& detached(bay, offset).handed == bay.handed.push(bay.slots[i]->0)
        },
        (forall|j: int|
            0 <= j < bay.slots.len() ==> ((#[trigger] bay.slots[j]) matches Some(other)
                ==> other.place() != offset)) ==> detached(bay, offset) == bay,
        detached(bay, offset).frame == bay.frame,
{
    if 0 <= i < bay.slots.len() && bay.slots[i] is Some && bay.slots[i]->0.place() == offset && (
    forall|j: int|
        0 <= j < i ==> ((#[trigger] bay.slots[j]) matches Some(other) ==> other.place()
            != offset)) {
        lemma_held(bay.slots, offset, 0, i);
    }
    if forall|j: int|
        0 <= j < bay.slots.len() ==> ((#[trigger] bay.slots[j]) matches Some(other)
            ==> other.place() != offset) {
        lemma_not_held(bay.slots, offset, 0);
    }
}

/// A bay obeys its commands one by one, in order, each as what it says.
pub proof fn a_bay_obeys_in_order<A: Placed>(
    bay: BayView<A>,
    commands: Seq<BayCmd<A>>,
    n: int,
    device: Box<A>,
    offset: u16,
)
    ensures
        bay_after(bay, BayCmd::Attach(device)) == attached(bay, *device),
        bay_after(bay, BayCmd::Detach { offset }) == detached(bay, offset),
        bay_after_all(bay, commands, 0) == bay,
        0 <= n < commands.len() ==> bay_after_all(bay, commands, n + 1) == bay_after(
            bay_after_all(bay, commands, n),
            commands[n],
        ),
{
}

/// A device lies at its offset and is as wide as its channels.
pub proof fn a_device_lies_at_its_offset(input: Attached, output: AttachedOutput)
    ensures
        input.place() == input.offset,
        input.width() == input.channels,
        output.place() == output.offset,
        output.width() == output.channels,
{
}

/// Every pop either gave a sample or missed, and the samples come in order.
pub proof fn every_pop_gave_or_missed(pops: Seq<Option<Single>>, n: int)
    requires
        0 <= n <= pops.len(),
    ensures
        popped(pops, n).len() + missed(pops, n) == n,
        n < pops.len() && pops[n] is Some ==> popped(pops, n + 1) == popped(pops, n).push(
            pops[n]->0,
        ),
        n < pops.len() && pops[n] is None ==> popped(pops, n + 1) == popped(pops, n),
        (forall|k: int| 0 <= k < n ==> (#[trigger] pops[k]) is Some) ==> missed(pops, n) == 0 && (
        forall|k: int| 0 <= k < n ==> #[trigger] popped(pops, n)[k] == pops[k]->0),
    decreases n,
{
    if n > 0 {
        every_pop_gave_or_missed(pops, n - 1);
        if forall|k: int| 0 <= k < n ==> (#[trigger] pops[k]) is Some {
            assert forall|k: int| 0 <= k < n implies #[trigger] popped(pops, n)[k]
                == pops[k]->0 by {
                if k < n - 1 {
                    assert(popped(pops, n - 1)[k] == pops[k]->0);
                }
            }
        }
    }
}

/// Each channel of a device lands on its own channel of the 64 of a frame: what its
/// ring gave, or silence where the ring gave nothing.
pub proof fn a_device_channel_lands_on_its_own(
    frame: Seq<Single>,
    slots: Seq<Option<Attached>>,
    pops: Seq<Seq<Option<Single>>>,
    frames: int,
    f: int,
    s: int,
    c: int,
)
    requires
        0 <= f < frames,
        frames * 64 <= frame.len(),
        0 <= s < slots.len(),
        slots[s] is Some,
        0 <= c < slots[s]->0.channels,
        slots[s]->0.offset + c < 64,
        forall|i: int|
            0 <= i < slots.len() && i != s ==> ((#[trigger] slots[i]) matches Some(other)
                ==> slots[s]->0.offset + c < other.offset || other.offset + other.channels
                <= slots[s]->0.offset + c),
    ensures
        ({
            let device = slots[s]->0;
            let at = assembled(frame, slots, pops, frames, slots.len() as int)[f * 64
                + device.offset + c];
            match pops[s][f * device.channels + c] {
                Some(sample) => at == sample,
                None => at.bits == 0,
            }
        }),
{
    let device = slots[s]->0;
    let channel = device.offset + c;
    assert forall|i: int, j: int| 0 <= i < j < slots.len() implies (covers(
        #[trigger] slots[i],
        channel,
    ) ==> !covers(#[trigger] slots[j], channel)) by {}
    devices_land_at_their_offsets(frame, slots, pops, frames, slots.len() as int, f, channel);
    assert(covers(slots[s], channel));
}

/// A channel of the frame that no device covers is silent.
pub proof fn a_channel_without_a_device_is_silent(
    frame: Seq<Single>,
    slots: Seq<Option<Attached>>,
    pops: Seq<Seq<Option<Single>>>,
    frames: int,
    f: int,
    channel: int,
)
    requires
        0 <= f < frames,
        frames * 64 <= frame.len(),
        0 <= channel < 64,
        forall|i: int|
            0 <= i < slots.len() ==> ((#[trigger] slots[i]) matches Some(other) ==> channel
                < other.offset || other.offset + other.channels <= channel),
    ensures
        assembled(frame, slots, pops, frames, slots.len() as int)[f * 64 + channel].bits == 0,
{
    assert forall|i: int| 0 <= i < slots.len() implies !covers(#[trigger] slots[i], channel) by {}
    devices_land_at_their_offsets(frame, slots, pops, frames, slots.len() as int, f, channel);
}

/// What lies behind the frames at hand is left alone.
pub proof fn frames_not_at_hand_are_left_alone(
    frame: Seq<Single>,
    slots: Seq<Option<Attached>>,
    pops: Seq<Seq<Option<Single>>>,
    frames: int,
    n: int,
    i: int,
)
    requires
        0 <= n <= slots.len(),
        0 <= frames,
        frames * 64 <= i < frame.len(),
    ensures
        assembled(frame, slots, pops, frames, n).len() == frame.len(),
        assembled(frame, slots, pops, frames, n)[i] == frame[i],
    decreases n,
{
    if n > 0 {
        frames_not_at_hand_are_left_alone(frame, slots, pops, frames, n - 1, i);
    }
}

/// Rows that a ring had room for go in whole, in order, cell by cell. The others are
/// counted as dropped.
pub proof fn a_row_goes_in_whole(
    values: Seq<Single>,
    base: int,
    stride: int,
    width: int,
    kept: Seq<bool>,
    n: int,
    r: int,
    c: int,
)
    requires
        0 <= r < n <= kept.len(),
        0 <= base,
        0 <= c < width <= stride,
        base + n * stride <= values.len() + (stride - width),
        kept[r],
    ensures
        ({
            let at = (r - rows_dropped(kept, r)) * width + c;
            &&& 0 <= at < rows_sent(values, base, stride, width, kept, n).len()
            &&& rows_sent(values, base, stride, width, kept, n)[at] == values[base + r * stride + c]
        }),
    decreases n,
{
    let all = rows_sent(values, base, stride, width, kept, n);
    let rest = rows_sent(values, base, stride, width, kept, n - 1);
    let at = (r - rows_dropped(kept, r)) * width + c;
    assert(base + (n - 1) * stride <= values.len() + (stride - width)) by (nonlinear_arith)
        requires
            base + n * stride <= values.len() + (stride - width),
            0 <= stride,
    ;
    only_whole_rows_are_sent(values, base, stride, width, kept, n - 1);
    if r < n - 1 {
        a_row_goes_in_whole(values, base, stride, width, kept, n - 1, r, c);
        assert(all[at] == rest[at]);
    } else {
        assert(rest.len() == (r - rows_dropped(kept, r)) * width);
        let start = base + r * stride;
        assert((r + 1) * stride == r * stride + stride) by (nonlinear_arith);
        assert(0 <= r * stride) by (nonlinear_arith)
            requires
                0 <= r,
                0 <= stride,
        ;
        assert(values.subrange(start, start + width)[c] == values[start + c]);
        assert(0 <= (r - rows_dropped(kept, r)) * width);
    }
}

/// The rows dropped are those that were not kept.
pub proof fn a_row_is_dropped_or_kept(kept: Seq<bool>, n: int)
    requires
        0 <= n < kept.len(),
    ensures
        rows_dropped(kept, 0) == 0,
        kept[n] ==> rows_dropped(kept, n + 1) == rows_dropped(kept, n),
        !kept[n] ==> rows_dropped(kept, n + 1) == rows_dropped(kept, n) + 1,
{
}

/// Every row is offered once, in order, cell by cell.
pub proof fn every_row_is_offered(
    values: Seq<Single>,
    base: int,
    stride: int,
    width: int,
    n: int,
    r: int,
    c: int,
)
    requires
        0 <= r < n,
        0 <= base,
        0 <= c < width <= stride,
        base + n * stride <= values.len() + (stride - width),
    ensures
        rows_offered(values, base, stride, width, n).len() == n,
        rows_offered(values, base, stride, width, n)[r].len() == width,
        rows_offered(values, base, stride, width, n)[r][c] == values[base + r * stride + c],
{
    assert(0 <= r * stride && (r + 1) * stride <= n * stride && (r + 1) * stride == r * stride
        + stride) by (nonlinear_arith)
        requires
            0 <= r < n,
            0 <= stride,
    ;
}

/// The monitor pair of a plane is the first two of every 64 channels, left and right
/// in turn.
pub proof fn the_pair_is_the_first_two_channels(plane: Seq<Single>, frames: int, f: int)
    requires
        0 <= f < frames,
    ensures
        pair_of(plane, 2 * frames).len() == 2 * frames,
        pair_of(plane, 2 * frames)[2 * f] == plane[f * 64],
        pair_of(plane, 2 * frames)[2 * f + 1] == plane[f * 64 + 1],
{
}

/// What a ring with room took of the pair is the pair, and what it had no room for is
/// left out.
pub proof fn the_pair_is_sent_in_order(plane: Seq<Single>, kept: Seq<bool>, n: int)
    requires
        0 <= n <= kept.len(),
    ensures
        (forall|k: int| 0 <= k < n ==> #[trigger] kept[k]) ==> pair_sent(plane, kept, n) == pair_of(
            plane,
            n,
        ),
        pair_sent(plane, kept, 0).len() == 0,
        n < kept.len() && !kept[n] ==> pair_sent(plane, kept, n + 1) == pair_sent(plane, kept, n),
        n < kept.len() && kept[n] ==> pair_sent(plane, kept, n + 1) == pair_sent(
            plane,
            kept,
            n,
        ).push(pair_of(plane, n + 1)[n]),
    decreases n,
{
    if n > 0 {
        the_pair_is_sent_in_order(plane, kept, n - 1);
        if forall|k: int| 0 <= k < n ==> #[trigger] kept[k] {
            assert(kept[n - 1]);
            assert(pair_sent(plane, kept, n) =~= pair_of(plane, n));
        }
    } else {
        assert(pair_sent(plane, kept, 0) =~= pair_of(plane, 0));
    }
}

/// A card's input lands at its offset while it is open, and the rest of the frames at
/// hand is silent. What lies behind them is left alone.
pub proof fn a_card_is_captured_at_its_offset(
    frame: Seq<Single>,
    block: Seq<Single>,
    frames: int,
    channels: int,
    routing: Routing,
    f: int,
    channel: int,
)
    requires
        0 <= f,
        0 <= channel < 64,
        0 <= frames,
        f * 64 + channel < frame.len(),
    ensures
        captured(frame, block, frames, channels, routing).len() == frame.len(),
        ({
            let heard = captured(frame, block, frames, channels, routing)[f * 64 + channel];
            let own = channel - routing.input_offset;
            &&& f < frames && routing.input_open && 0 <= own < channels ==> heard == block[f
                * channels + own]
            &&& f < frames && !(routing.input_open && 0 <= own < channels) ==> heard.bits == 0
            &&& f >= frames ==> heard == frame[f * 64 + channel]
        }),
{
    lemma_fundamental_div_mod_converse(f * 64 + channel, 64, f, channel);
}

/// A card plays the monitor pair on its first two channels, and its patches on the
/// others while the output is open. Everything else is silent.
pub proof fn a_card_plays_the_pair_and_its_patches(
    plane: Seq<Single>,
    f: int,
    channel: int,
    channels: int,
    routing: Routing,
)
    requires
        0 <= channel < channels,
    ensures
        ({
            let heard = played(plane, f, channel, channels, routing);
            &&& channel < 2 ==> heard == plane[f * 64 + channel]
            &&& channel >= 2 && routing.output_open && routing.output_offset + channel - 2 < 64
                ==> heard == plane[f * 64 + routing.output_offset + channel - 2]
            &&& channel >= 2 && !(routing.output_open && routing.output_offset + channel - 2 < 64)
                ==> heard.bits == 0
        }),
{
}

} // verus!
