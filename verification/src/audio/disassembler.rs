//! The output disassembler: splits the engine's output plane into the rings of
//! all output devices.

use std::sync::atomic::AtomicBool;
use std::sync::atomic::AtomicU64;
use std::sync::atomic::Ordering;
use std::sync::Arc;

use vstd::prelude::*;

use crate::audio::assembler::push_rows;
use crate::audio::assembler::rows_dropped;
use crate::audio::assembler::rows_offered;
use crate::audio::assembler::rows_sent;
use crate::audio::bay::all_fit;
use crate::audio::bay::bay_after_all;
use crate::audio::bay::Bay;
use crate::audio::bay::BayCmd;
use crate::audio::bay::BayView;
use crate::audio::bay::Placed;
use crate::engine::ring::one_by_one;
use crate::engine::ring::RingRx;
use crate::engine::ring::RingTx;
use crate::engine::slots::MAX_OUTPUT_CHANNELS;
use crate::single::Single;

verus! {

/// Output devices that can be attached at once.
pub const MAX_OUTPUT_DEVICES: usize = 8;

/// Depth of the attach and retire rings.
pub const DISASSEMBLER_RING_CAPACITY: usize = 16;

/// An output stream's health, as both sides see it.
#[derive(Debug)]
pub struct OutputShared {
    /// Samples that the device wanted and the engine had not produced.
    pub underruns: AtomicU64,
    /// Whole frames that the ring had no room for.
    pub overruns: AtomicU64,
    pub failed: AtomicBool,
}

impl Default for OutputShared {
    fn default() -> OutputShared {
        OutputShared {
            underruns: AtomicU64::new(0),
            overruns: AtomicU64::new(0),
            failed: AtomicBool::new(false),
        }
    }
}

/// One attached device: its ring and which part of the plane it carries.
pub struct AttachedOutput {
    pub producer: RingTx<Single>,
    pub offset: u16,
    pub channels: u16,
    pub shared: Arc<OutputShared>,
}

impl Placed for AttachedOutput {
    open spec fn place(&self) -> u16 {
        self.offset
    }

    open spec fn width(&self) -> u16 {
        self.channels
    }

    fn offset(&self) -> u16 {
        self.offset
    }

    fn channels(&self) -> u16 {
        self.channels
    }
}

pub type DisassemblerCmd = BayCmd<AttachedOutput>;

/// The output disassembler.
pub struct OutputDisassembler {
    pub bay: Bay<AttachedOutput>,
}

/// What became of a slot: its device was given its part of every frame, each
/// whole or not at all.
pub open spec fn served(
    before: Option<AttachedOutput>,
    after: Option<AttachedOutput>,
    plane: Seq<Single>,
    kept: Seq<bool>,
    frames: int,
) -> bool {
    match (before, after) {
        (Some(a), Some(b)) => {
            &&& b.offset == a.offset
            &&& b.channels == a.channels
            &&& b.shared == a.shared
            &&& kept.len() == frames
            &&& b.producer.origin() == a.producer.origin()
            &&& b.producer.sent() == a.producer.sent() + rows_sent(
                plane,
                a.offset as int,
                MAX_OUTPUT_CHANNELS as int,
                a.channels as int,
                kept,
                frames,
            )
            &&& b.producer.offered() == a.producer.offered() + rows_offered(
                plane,
                a.offset as int,
                MAX_OUTPUT_CHANNELS as int,
                a.channels as int,
                frames,
            )
        },
        (None, None) => true,
        _ => false,
    }
}

/// What became of every slot in one scattering.
pub open spec fn scattered(
    before: Seq<Option<AttachedOutput>>,
    after: Seq<Option<AttachedOutput>>,
    plane: Seq<Single>,
    kept: Seq<Seq<bool>>,
    frames: int,
) -> bool {
    &&& kept.len() == before.len()
    &&& after.len() == before.len()
    &&& forall|j: int|
        0 <= j < before.len() ==> served(before[j], #[trigger] after[j], plane, kept[j], frames)
}

impl AttachedOutput {
    fn serve(&mut self, plane: &Vec<Single>, frames: usize) -> (overruns: u64)
        requires
            frames * MAX_OUTPUT_CHANNELS <= plane@.len(),
            frames <= u64::MAX,
            old(self).offset + old(self).channels <= MAX_OUTPUT_CHANNELS,
        ensures
            exists|kept: Seq<bool>|
                overruns == #[trigger] rows_dropped(kept, frames as int) && served(
                    Some(*old(self)),
                    Some(*final(self)),
                    plane@,
                    kept,
                    frames as int,
                ),
    {
        let ghost before = *self;
        let overruns: u64 = push_rows(
            &mut self.producer,
            plane,
            self.offset as usize,
            MAX_OUTPUT_CHANNELS,
            self.channels as usize,
            frames,
        );
        proof {
            let kept = choose|kept: Seq<bool>|
                kept.len() == frames && overruns == rows_dropped(kept, frames as int)
                    && self.producer.sent() == before.producer.sent() + #[trigger] rows_sent(
                    plane@,
                    before.offset as int,
                    MAX_OUTPUT_CHANNELS as int,
                    before.channels as int,
                    kept,
                    frames as int,
                );
            assert(served(Some(before), Some(*self), plane@, kept, frames as int));
        }
        overruns
    }

    /// Adds to the count that the device's status reads. What the shared count then
    /// holds is not said.
    fn count_overruns(&self, overruns: u64) {
        self.shared.overruns.fetch_add(overruns, Ordering::Relaxed);
    }
}

impl OutputDisassembler {
    /// A disassembler without devices.
    pub fn new(
        cmd_rx: RingRx<DisassemblerCmd>,
        retire_tx: RingTx<Box<AttachedOutput>>,
    ) -> (disassembler: OutputDisassembler)
        ensures
            disassembler.bay@ == (BayView {
                slots: Seq::new(MAX_OUTPUT_DEVICES as nat, |i: int| None::<AttachedOutput>),
                handed: Seq::empty(),
                frame: MAX_OUTPUT_CHANNELS,
            }),
            disassembler.bay.taken() == cmd_rx.taken(),
            disassembler.bay.budget() == DISASSEMBLER_RING_CAPACITY,
            disassembler.bay.origin() == cmd_rx.origin(),
            disassembler.bay.outbox().origin() == retire_tx.origin(),
            disassembler.bay.outbox().sent() == retire_tx.sent(),
            disassembler.bay.outbox().parked() == Seq::<Box<AttachedOutput>>::empty(),
            disassembler.bay.outbox().places() == MAX_OUTPUT_DEVICES,
            disassembler.wf(),
    {
        OutputDisassembler {
            bay: Bay::new(
                cmd_rx,
                retire_tx,
                MAX_OUTPUT_DEVICES,
                DISASSEMBLER_RING_CAPACITY,
                MAX_OUTPUT_CHANNELS,
            ),
        }
    }

    /// Every attached device fits the output plane.
    pub open spec fn wf(&self) -> bool {
        all_fit(self.bay@) && self.bay@.frame == MAX_OUTPUT_CHANNELS
    }

    /// Obeys the waiting attach and detach commands.
    pub fn drain_commands(&mut self)
        requires
            old(self).wf(),
        ensures
            final(self).wf(),
            final(self).bay.cleared(),
            final(self).bay.outbox().carried_on(&old(self).bay.outbox()),
            final(self).bay.origin() == old(self).bay.origin(),
            old(self).bay.taken().is_prefix_of(final(self).bay.taken()),
            final(self).bay.budget() == old(self).bay.budget(),
            ({
                let commands = final(self).bay.taken().skip(old(self).bay.taken().len() as int);
                &&& commands.len() <= old(self).bay.budget()
                &&& final(self).bay.misses() == old(self).bay.misses() + if commands.len() < old(
                    self,
                ).bay.budget() {
                    1nat
                } else {
                    0nat
                }
                &&& final(self).bay@ == bay_after_all(
                    old(self).bay@,
                    commands,
                    commands.len() as int,
                )
            }),
    {
        let ghost before = self.bay@;
        let ghost history = self.bay.taken();
        self.bay.drain_commands();
        proof {
            let commands = self.bay.taken().skip(history.len() as int);
            lemma_plane_stays(before, commands, commands.len() as int);
        }
    }

    /// Gives every device its part of so many frames of the plane, frame by
    /// frame. A frame that a ring has no room for is dropped whole, and counted.
    pub fn scatter(&mut self, plane: &Vec<Single>, frames: usize)
        requires
            old(self).wf(),
            frames * MAX_OUTPUT_CHANNELS <= plane@.len(),
            frames <= u64::MAX,
        ensures
            final(self).wf(),
            final(self).bay.taken() == old(self).bay.taken(),
            final(self).bay.budget() == old(self).bay.budget(),
            final(self).bay.outbox() == old(self).bay.outbox(),
            final(self).bay.origin() == old(self).bay.origin(),
            exists|kept: Seq<Seq<bool>>| #[trigger]
                scattered(
                    old(self).bay@.slots,
                    final(self).bay@.slots,
                    plane@,
                    kept,
                    frames as int,
                ),
    {
        let ghost first = self.bay@;
        let ghost taken = self.bay.taken();
        let ghost budget = self.bay.budget();
        let ghost outbox = self.bay.outbox();
        let ghost origin = self.bay.origin();
        let size: usize = self.bay.size();
        let ghost mut kept: Seq<Seq<bool>> = Seq::empty();
        let mut i: usize = 0;
        while i < size
            invariant
                i <= size == first.slots.len(),
                all_fit(first),
                first.frame == MAX_OUTPUT_CHANNELS,
                frames * MAX_OUTPUT_CHANNELS <= plane@.len(),
                frames <= u64::MAX,
                self.bay.taken() == taken,
                self.bay.budget() == budget,
                self.bay.outbox() == outbox,
                self.bay.origin() == origin,
                self.bay@.frame == first.frame,
                self.bay@.slots.len() == first.slots.len(),
                kept.len() == i,
                forall|j: int|
                    0 <= j < i ==> served(
                        first.slots[j],
                        #[trigger] self.bay@.slots[j],
                        plane@,
                        kept[j],
                        frames as int,
                    ),
                forall|j: int| i <= j < size ==> #[trigger] self.bay@.slots[j] == first.slots[j],
            decreases size - i,
        {
            let ghost slots = self.bay@.slots;
            assert(slots[i as int] == first.slots[i as int]);
            let ghost mut row: Seq<bool> = Seq::empty();
            let slot: &mut Option<Box<AttachedOutput>> = self.bay.device_mut(i);
            if let Some(device) = slot {
                let ghost before = **device;
                let overruns: u64 = device.serve(plane, frames);
                proof {
                    row = choose|row: Seq<bool>|
                        overruns == #[trigger] rows_dropped(row, frames as int) && served(
                            Some(before),
                            Some(**device),
                            plane@,
                            row,
                            frames as int,
                        );
                }
                if overruns > 0 {
                    device.count_overruns(overruns);
                }
            }
            proof {
                let more = kept.push(row);
                assert forall|j: int| 0 <= j < i + 1 implies served(
                    first.slots[j],
                    #[trigger] self.bay@.slots[j],
                    plane@,
                    more[j],
                    frames as int,
                ) by {
                    if j < i {
                        assert(self.bay@.slots[j] == slots[j]);
                        assert(more[j] == kept[j]);
                    }
                }
                kept = more;
            }
            i = i + 1;
        }
        proof {
            assert(scattered(first.slots, self.bay@.slots, plane@, kept, frames as int));
            assert forall|j: int| 0 <= j < size implies ((#[trigger] self.bay@.slots[j]) matches Some(
                device,
            ) ==> device.place() + device.width() <= first.frame) by {
                assert(first.slots[j] matches Some(device) ==> device.place() + device.width()
                    <= first.frame);
            }
        }
    }
}

proof fn lemma_plane_stays(
    bay: BayView<AttachedOutput>,
    commands: Seq<BayCmd<AttachedOutput>>,
    n: int,
)
    requires
        0 <= n,
    ensures
        bay_after_all(bay, commands, n).frame == bay.frame,
    decreases n,
{
    if n > 0 {
        lemma_plane_stays(bay, commands, n - 1);
    }
}

/// Sends the monitor pair of so many frames of the plane. What does not fit is
/// dropped, sample by sample.
pub fn push_monitor(tx: &mut RingTx<Single>, plane: &Vec<Single>, frames: usize)
    requires
        frames * MAX_OUTPUT_CHANNELS <= plane@.len(),
    ensures
        exists|kept: Seq<bool>|
            kept.len() == 2 * frames && final(tx).sent() == old(tx).sent() + #[trigger] pair_sent(
                plane@,
                kept,
                2 * frames,
            ),
        final(tx).offered() == old(tx).offered() + one_by_one(pair_of(plane@, 2 * frames)),
        final(tx).origin() == old(tx).origin(),
{
    let ghost before = tx.sent();
    let ghost origin = tx.origin();
    let ghost offered = tx.offered();
    assert(offered + one_by_one(pair_of(plane@, 0)) =~= offered);
    let length: usize = plane.len();
    let ghost mut kept: Seq<bool> = Seq::empty();
    let mut f: usize = 0;
    assert(before + pair_sent(plane@, kept, 0) =~= before);
    while f < frames
        invariant
            f <= frames,
            frames * MAX_OUTPUT_CHANNELS <= length == plane@.len(),
            kept.len() == 2 * f,
            tx.origin() == origin,
            tx.sent() == before + pair_sent(plane@, kept, 2 * f),
            tx.offered() == offered + one_by_one(pair_of(plane@, 2 * f)),
        decreases frames - f,
    {
        let base: usize = f * MAX_OUTPUT_CHANNELS;
        let left: bool = tx.push(plane[base]).is_ok();
        let ghost first = kept.push(left);
        proof {
            lemma_pair_reads_its_own(plane@, kept, first, 2 * f);
            assert(first[2 * f] == left);
            assert(tx.sent() =~= before + pair_sent(plane@, first, 2 * f + 1));
            assert(tx.offered() =~= offered + one_by_one(pair_of(plane@, 2 * f + 1)));
        }
        let right: bool = tx.push(plane[base + 1]).is_ok();
        proof {
            let both = first.push(right);
            lemma_pair_reads_its_own(plane@, first, both, 2 * f + 1);
            assert(both[2 * f + 1] == right);
            assert(tx.sent() =~= before + pair_sent(plane@, both, 2 * f + 2));
            assert(tx.offered() =~= offered + one_by_one(pair_of(plane@, 2 * f + 2)));
            kept = both;
        }
        f = f + 1;
    }
}

/// The first `n` samples of the monitor pair, left and right in turn.
pub open spec fn pair_of(plane: Seq<Single>, n: int) -> Seq<Single> {
    Seq::new(n as nat, |k: int| plane[k / 2 * MAX_OUTPUT_CHANNELS + k % 2])
}

/// The samples of the monitor pair, left and right in turn, that went into a
/// ring.
pub open spec fn pair_sent(plane: Seq<Single>, kept: Seq<bool>, n: int) -> Seq<Single>
    decreases n,
{
    if n <= 0 {
        Seq::empty()
    } else {
        let k = n - 1;
        let rest = pair_sent(plane, kept, k);
        if kept[k] {
            rest.push(plane[k / 2 * MAX_OUTPUT_CHANNELS + k % 2])
        } else {
            rest
        }
    }
}

proof fn lemma_pair_reads_its_own(plane: Seq<Single>, a: Seq<bool>, b: Seq<bool>, n: int)
    requires
        0 <= n <= a.len() <= b.len(),
        a.is_prefix_of(b),
    ensures
        pair_sent(plane, a, n) == pair_sent(plane, b, n),
    decreases n,
{
    if n > 0 {
        lemma_pair_reads_its_own(plane, a, b, n - 1);
        assert(a[n - 1] == b[n - 1]);
    }
}

} // verus!
