//! The input assembler: merges the rings of all input devices into the
//! engine's input frame.

use std::sync::atomic::AtomicBool;
use std::sync::atomic::AtomicU64;
use std::sync::atomic::Ordering;
use std::sync::Arc;

use vstd::prelude::*;

use crate::audio::bay::all_fit;
use crate::audio::bay::bay_after_all;
use crate::audio::bay::Bay;
use crate::audio::bay::BayCmd;
use crate::audio::bay::BayView;
use crate::audio::bay::Placed;
use crate::engine::ring::RingRx;
use crate::engine::ring::RingTx;
use crate::engine::slots::MAX_INPUT_CHANNELS;
use crate::single::Single;

verus! {

/// Input devices that can be attached at once.
pub const MAX_INPUT_DEVICES: usize = 16;

/// Depth of the attach and retire rings.
pub const ASSEMBLER_RING_CAPACITY: usize = 32;

/// An input stream's health, as both sides see it.
#[derive(Debug)]
pub struct InputShared {
    /// Samples that the ring did not hold when they were wanted.
    pub underruns: AtomicU64,
    /// Whole frames that the ring had no room for.
    pub overruns: AtomicU64,
    pub failed: AtomicBool,
}

impl Default for InputShared {
    fn default() -> InputShared {
        InputShared {
            underruns: AtomicU64::new(0),
            overruns: AtomicU64::new(0),
            failed: AtomicBool::new(false),
        }
    }
}

/// The rows that went into a ring: `width` values each, `stride` apart, the
/// first at `base`. `kept` says of each of the first `n` rows whether it went.
pub open spec fn rows_sent(
    values: Seq<Single>,
    base: int,
    stride: int,
    width: int,
    kept: Seq<bool>,
    n: int,
) -> Seq<Single>
    decreases n,
{
    if n <= 0 {
        Seq::empty()
    } else {
        let rest = rows_sent(values, base, stride, width, kept, n - 1);
        if kept[n - 1] {
            let start = base + (n - 1) * stride;
            rest + values.subrange(start, start + width)
        } else {
            rest
        }
    }
}

/// The first `n` rows, each as it is offered.
pub open spec fn rows_offered(
    values: Seq<Single>,
    base: int,
    stride: int,
    width: int,
    n: int,
) -> Seq<Seq<Single>> {
    Seq::new(
        n as nat,
        |i: int| values.subrange(base + i * stride, base + i * stride + width),
    )
}

/// How many of the first `n` rows did not go.
pub open spec fn rows_dropped(kept: Seq<bool>, n: int) -> nat
    decreases n,
{
    if n <= 0 {
        0
    } else {
        rows_dropped(kept, n - 1) + if kept[n - 1] {
            0nat
        } else {
            1nat
        }
    }
}

/// Sends rows of a buffer, each of them whole or not at all, and counts those
/// that did not fit.
pub fn push_rows(
    tx: &mut RingTx<Single>,
    values: &Vec<Single>,
    base: usize,
    stride: usize,
    width: usize,
    rows: usize,
) -> (dropped: u64)
    requires
        width <= stride,
        rows > 0 ==> base + rows * stride <= values@.len() + (stride - width),
        rows <= u64::MAX,
    ensures
        exists|kept: Seq<bool>|
            kept.len() == rows && dropped == rows_dropped(kept, rows as int)
                && final(tx).sent() == old(tx).sent() + #[trigger] rows_sent(
                values@,
                base as int,
                stride as int,
                width as int,
                kept,
                rows as int,
            ),
        final(tx).offered() == old(tx).offered() + rows_offered(
            values@,
            base as int,
            stride as int,
            width as int,
            rows as int,
        ),
        final(tx).origin() == old(tx).origin(),
{
    let ghost before = tx.sent();
    let ghost origin = tx.origin();
    let ghost offered = tx.offered();
    let ghost mut kept: Seq<bool> = Seq::empty();
    let mut dropped: u64 = 0;
    let mut row: usize = 0;
    let length: usize = values.len();
    proof {
        assert(before + rows_sent(
            values@,
            base as int,
            stride as int,
            width as int,
            kept,
            0,
        ) =~= before);
        assert(offered + rows_offered(
            values@,
            base as int,
            stride as int,
            width as int,
            0,
        ) =~= offered);
    }
    while row < rows
        invariant
            row <= rows <= u64::MAX,
            width <= stride,
            length == values@.len(),
            rows > 0 ==> base + rows * stride <= values@.len() + (stride - width),
            kept.len() == row,
            dropped == rows_dropped(kept, row as int),
            dropped <= row,
            tx.origin() == origin,
            tx.sent() == before + rows_sent(
                values@,
                base as int,
                stride as int,
                width as int,
                kept,
                row as int,
            ),
            tx.offered() == offered + rows_offered(
                values@,
                base as int,
                stride as int,
                width as int,
                row as int,
            ),
        decreases rows - row,
    {
        proof {
            assert(row * stride + stride <= rows * stride) by (nonlinear_arith)
                requires
                    row + 1 <= rows,
            ;
            assert(0 <= row * stride) by (nonlinear_arith);
        }
        let start: usize = base + row * stride;
        let pushed: bool = tx.push_range(values, start, width);
        let ghost more = kept.push(pushed);
        if !pushed {
            dropped = dropped + 1;
        }
        proof {
            lemma_rows_read_their_own(
                values@,
                base as int,
                stride as int,
                width as int,
                kept,
                more,
                row as int,
            );
            assert(more[row as int] == pushed);
            assert(tx.sent() =~= before + rows_sent(
                values@,
                base as int,
                stride as int,
                width as int,
                more,
                row + 1,
            ));
            assert(tx.offered() =~= offered + rows_offered(
                values@,
                base as int,
                stride as int,
                width as int,
                row + 1,
            ));
            kept = more;
        }
        row = row + 1;
    }
    dropped
}

proof fn lemma_rows_read_their_own(
    values: Seq<Single>,
    base: int,
    stride: int,
    width: int,
    a: Seq<bool>,
    b: Seq<bool>,
    n: int,
)
    requires
        0 <= n <= a.len() <= b.len(),
        forall|i: int| 0 <= i < n ==> a[i] == #[trigger] b[i],
    ensures
        rows_sent(values, base, stride, width, a, n) == rows_sent(
            values,
            base,
            stride,
            width,
            b,
            n,
        ),
        rows_dropped(a, n) == rows_dropped(b, n),
    decreases n,
{
    if n > 0 {
        lemma_rows_read_their_own(values, base, stride, width, a, b, n - 1);
        assert(a[n - 1] == b[n - 1]);
    }
}

/// A ring never holds part of a row: whatever was dropped, what went in is a
/// whole number of rows.
pub proof fn only_whole_rows_are_sent(
    values: Seq<Single>,
    base: int,
    stride: int,
    width: int,
    kept: Seq<bool>,
    n: int,
)
    requires
        0 <= n <= kept.len(),
        0 <= base,
        0 <= width <= stride,
        n > 0 ==> base + n * stride <= values.len() + (stride - width),
    ensures
        rows_dropped(kept, n) <= n,
        rows_sent(values, base, stride, width, kept, n).len() == (n - rows_dropped(kept, n))
            * width,
    decreases n,
{
    if n > 0 {
        assert((n - 1) * stride + stride == n * stride) by (nonlinear_arith);
        assert((n - 1) * stride >= 0) by (nonlinear_arith)
            requires
                n >= 1,
                stride >= 0,
        ;
        only_whole_rows_are_sent(values, base, stride, width, kept, n - 1);
        let lost = rows_dropped(kept, n - 1);
        assert((n - 1 - lost) * width + width == (n - lost) * width) by (nonlinear_arith);
    } else {
        assert((n - rows_dropped(kept, n)) * width == 0) by (nonlinear_arith)
            requires
                n - rows_dropped(kept, n) == 0,
        ;
    }
}

/// Sends whole device frames, and drops every frame that does not fit
/// entirely. Samples behind the last whole frame are not sent.
pub fn push_frames(tx: &mut RingTx<Single>, samples: &Vec<Single>, channels: usize) -> (dropped: u64)
    requires
        channels > 0,
        samples@.len() <= u64::MAX,
    ensures
        ({
            let frames = samples@.len() as int / channels as int;
            exists|kept: Seq<bool>|
                kept.len() == frames && dropped == rows_dropped(kept, frames) && final(tx).sent()
                    == old(tx).sent() + #[trigger] rows_sent(
                    samples@,
                    0,
                    channels as int,
                    channels as int,
                    kept,
                    frames,
                )
        }),
        final(tx).offered() == old(tx).offered() + rows_offered(
            samples@,
            0,
            channels as int,
            channels as int,
            samples@.len() as int / channels as int,
        ),
        final(tx).origin() == old(tx).origin(),
{
    let length: usize = samples.len();
    let frames: usize = length / channels;
    proof {
        assert(frames * channels <= length && frames <= length) by (nonlinear_arith)
            requires
                channels > 0,
                frames == length / channels,
        ;
    }
    push_rows(tx, samples, 0, channels, channels, frames)
}

/// One attached device: its ring and where its channels land in the frame.
pub struct Attached {
    pub consumer: RingRx<Single>,
    pub offset: u16,
    pub channels: u16,
    pub shared: Arc<InputShared>,
}

impl Placed for Attached {
    open spec fn place(&self) -> u16 {
        self.offset
    }

    open spec fn width(&self) -> u16 {
        self.channels
    }

    fn offset(&self) -> u16 {
        self.offset
    }

    fn channels(&self) -> u16 {
        self.channels
    }
}

pub type AssemblerCmd = BayCmd<Attached>;

/// The input assembler.
pub struct InputAssembler {
    pub bay: Bay<Attached>,
}

/// What came out of a ring: the sample, or silence where there was none.
pub open spec fn heard(pop: Option<Single>) -> Single {
    match pop {
        Some(sample) => sample,
        None => Single { bits: 0 },
    }
}

/// The samples among the first `n` pops.
pub open spec fn popped(pops: Seq<Option<Single>>, n: int) -> Seq<Single>
    decreases n,
{
    if n <= 0 {
        Seq::empty()
    } else {
        match pops[n - 1] {
            Some(sample) => popped(pops, n - 1).push(sample),
            None => popped(pops, n - 1),
        }
    }
}

/// How many of the first `n` pops found nothing.
pub open spec fn missed(pops: Seq<Option<Single>>, n: int) -> nat
    decreases n,
{
    if n <= 0 {
        0
    } else {
        missed(pops, n - 1) + if pops[n - 1] is None {
            1nat
        } else {
            0nat
        }
    }
}

/// The frame once a device has poured `frames` frames into it: its channels
/// from its offset on, everything else as it was.
pub open spec fn poured(
    frame: Seq<Single>,
    offset: int,
    channels: int,
    pops: Seq<Option<Single>>,
    frames: int,
) -> Seq<Single> {
    Seq::new(
        frame.len(),
        |i: int|
            {
                let f = i / (MAX_INPUT_CHANNELS as int);
                let c = i % (MAX_INPUT_CHANNELS as int);
                if f < frames && offset <= c < offset + channels {
                    heard(pops[f * channels + (c - offset)])
                } else {
                    frame[i]
                }
            },
    )
}

/// The frame with its first `frames` frames silent.
pub open spec fn hushed(frame: Seq<Single>, frames: int) -> Seq<Single> {
    Seq::new(
        frame.len(),
        |i: int|
            if i < frames * MAX_INPUT_CHANNELS {
                Single { bits: 0 }
            } else {
                frame[i]
            },
    )
}

/// The frame once the first `n` slots have poured, in order.
pub open spec fn assembled(
    frame: Seq<Single>,
    slots: Seq<Option<Attached>>,
    pops: Seq<Seq<Option<Single>>>,
    frames: int,
    n: int,
) -> Seq<Single>
    decreases n,
{
    if n <= 0 {
        hushed(frame, frames)
    } else {
        let rest = assembled(frame, slots, pops, frames, n - 1);
        match slots[n - 1] {
            Some(device) => poured(
                rest,
                device.offset as int,
                device.channels as int,
                pops[n - 1],
                frames,
            ),
            None => rest,
        }
    }
}

/// What became of a slot: its device made one pop per sample, and its ring's
/// history shows what they found.
pub open spec fn drew(
    before: Option<Attached>,
    after: Option<Attached>,
    pops: Seq<Option<Single>>,
    frames: int,
) -> bool {
    match (before, after) {
        (Some(a), Some(b)) => {
            &&& b.offset == a.offset
            &&& b.channels == a.channels
            &&& b.shared == a.shared
            &&& pops.len() == frames * a.channels
            &&& b.consumer.taken() == a.consumer.taken() + popped(pops, pops.len() as int)
            &&& b.consumer.misses() == a.consumer.misses() + missed(pops, pops.len() as int)
            &&& b.consumer.looks() == a.consumer.looks()
            &&& b.consumer.origin() == a.consumer.origin()
        },
        (None, None) => pops.len() == 0,
        _ => false,
    }
}

impl Attached {
    /// Pours the device's next samples into the frame, and counts the ones that
    /// its ring did not hold.
    fn pour(&mut self, frame: &mut Vec<Single>, frames: usize) -> (found: (u64, Ghost<
        Seq<Option<Single>>,
    >))
        requires
            frames * MAX_INPUT_CHANNELS <= old(frame)@.len(),
            old(self).offset + old(self).channels <= MAX_INPUT_CHANNELS,
        ensures
            drew(Some(*old(self)), Some(*final(self)), found.1@, frames as int),
            found.0 == missed(found.1@, found.1@.len() as int),
            final(frame)@ == poured(
                old(frame)@,
                old(self).offset as int,
                old(self).channels as int,
                found.1@,
                frames as int,
            ),
    {
        let ghost before = *self;
        let ghost start = frame@;
        let length: usize = frame.len();
        let channels: usize = self.channels as usize;
        let offset: usize = self.offset as usize;
        let ghost mut pops: Seq<Option<Single>> = Seq::empty();
        let mut missing: u64 = 0;
        let mut f: usize = 0;
        proof {
            assert(popped(pops, 0) =~= Seq::<Single>::empty());
            assert(self.consumer.taken() + popped(pops, 0) =~= self.consumer.taken());
            assert(start =~= poured(start, offset as int, channels as int, pops, 0));
        }
        while f < frames
            invariant
                f <= frames,
                frames * MAX_INPUT_CHANNELS <= length == start.len(),
                frame@.len() == start.len(),
                offset + channels <= MAX_INPUT_CHANNELS,
                offset == before.offset,
                channels == before.channels,
                self.offset == before.offset,
                self.channels == before.channels,
                self.shared == before.shared,
                pops.len() == f * channels,
                missing == missed(pops, pops.len() as int),
                missing <= pops.len(),
                self.consumer.looks() == before.consumer.looks(),
                self.consumer.origin() == before.consumer.origin(),
                self.consumer.misses() == before.consumer.misses() + missing,
                self.consumer.taken() == before.consumer.taken() + popped(
                    pops,
                    pops.len() as int,
                ),
                frame@ == poured(start, offset as int, channels as int, pops, f as int),
            decreases frames - f,
        {
            let base: usize = f * MAX_INPUT_CHANNELS + offset;
            let ghost done = pops;
            let ghost laid = frame@;
            let mut c: usize = 0;
            while c < channels
                invariant
                    c <= channels,
                    f < frames,
                    frames * MAX_INPUT_CHANNELS <= length == start.len(),
                    frame@.len() == laid.len() == start.len(),
                    offset + channels <= MAX_INPUT_CHANNELS,
                    base == f * MAX_INPUT_CHANNELS + offset,
                    self.offset == before.offset,
                    self.channels == before.channels,
                    self.shared == before.shared,
                    done.len() == f * channels,
                    pops.len() == done.len() + c,
                    done.is_prefix_of(pops),
                    missing == missed(pops, pops.len() as int),
                    missing <= pops.len(),
                    self.consumer.looks() == before.consumer.looks(),
                    self.consumer.origin() == before.consumer.origin(),
                    self.consumer.misses() == before.consumer.misses() + missing,
                    self.consumer.taken() == before.consumer.taken() + popped(
                        pops,
                        pops.len() as int,
                    ),
                    forall|i: int|
                        0 <= i < start.len() ==> #[trigger] frame@[i] == if base <= i < base + c {
                            heard(pops[done.len() + (i - base)])
                        } else {
                            laid[i]
                        },
                decreases channels - c,
            {
                proof {
                    assert(f * channels + channels <= frames * MAX_INPUT_CHANNELS)
                        by (nonlinear_arith)
                        requires
                            f < frames,
                            channels <= MAX_INPUT_CHANNELS,
                    ;
                }
                let pop: Option<Single> = self.consumer.pop();
                let ghost more = pops.push(pop);
                proof {
                    lemma_pops_read_their_own(pops, more, pops.len() as int);
                    assert(more[pops.len() as int] == pop);
                }
                match pop {
                    Some(sample) => {
                        frame[base + c] = sample;
                        proof {
                            assert(self.consumer.taken() =~= before.consumer.taken() + popped(
                                more,
                                more.len() as int,
                            ));
                        }
                    },
                    None => {
                        missing = missing + 1;
                        frame[base + c] = Single { bits: 0 };
                    },
                }
                proof {
                    pops = more;
                }
                c = c + 1;
            }
            proof {
                assert((f + 1) * channels == f * channels + channels) by (nonlinear_arith);
                lemma_poured_one_more(
                    start,
                    laid,
                    frame@,
                    offset as int,
                    channels as int,
                    done,
                    pops,
                    f as int,
                );
            }
            f = f + 1;
        }
        proof {
            assert(pops.len() == frames * before.channels);
        }
        (missing, Ghost(pops))
    }
}

proof fn lemma_pops_read_their_own(a: Seq<Option<Single>>, b: Seq<Option<Single>>, n: int)
    requires
        0 <= n <= a.len() <= b.len(),
        a.is_prefix_of(b),
    ensures
        popped(a, n) == popped(b, n),
        missed(a, n) == missed(b, n),
    decreases n,
{
    if n > 0 {
        lemma_pops_read_their_own(a, b, n - 1);
        assert(a[n - 1] == b[n - 1]);
    }
}

proof fn lemma_poured_one_more(
    start: Seq<Single>,
    laid: Seq<Single>,
    after: Seq<Single>,
    offset: int,
    channels: int,
    done: Seq<Option<Single>>,
    pops: Seq<Option<Single>>,
    f: int,
)
    requires
        0 <= f,
        0 <= offset,
        0 <= channels,
        offset + channels <= MAX_INPUT_CHANNELS,
        done.len() == f * channels,
        pops.len() == done.len() + channels,
        done.is_prefix_of(pops),
        laid == poured(start, offset, channels, done, f),
        after.len() == start.len(),
        ({
            let base = f * MAX_INPUT_CHANNELS + offset;
            forall|i: int|
                0 <= i < start.len() ==> #[trigger] after[i] == if base <= i < base + channels {
                    heard(pops[done.len() + (i - base)])
                } else {
                    laid[i]
                }
        }),
    ensures
        after == poured(start, offset, channels, pops, f + 1),
{
    let width = MAX_INPUT_CHANNELS as int;
    let base = f * width + offset;
    let wanted = poured(start, offset, channels, pops, f + 1);
    assert forall|i: int| 0 <= i < start.len() implies #[trigger] after[i] == wanted[i] by {
        let row = i / width;
        let c = i % width;
        assert(i == row * width + c);
        if base <= i < base + channels {
            assert(row == f);
        } else if row < f && offset <= c < offset + channels {
            assert(0 <= row * channels + (c - offset) < f * channels) by (nonlinear_arith)
                requires
                    0 <= row < f,
                    0 <= c - offset < channels,
            ;
            assert(done[row * channels + (c - offset)] == pops[row * channels + (c - offset)]);
        }
    }
    assert(after =~= wanted);
}

impl InputAssembler {
    /// An assembler without devices.
    pub fn new(cmd_rx: RingRx<AssemblerCmd>, retire_tx: RingTx<Box<Attached>>) -> (assembler:
        InputAssembler)
        ensures
            assembler.bay@ == (BayView {
                slots: Seq::new(MAX_INPUT_DEVICES as nat, |i: int| None::<Attached>),
                handed: Seq::empty(),
                frame: MAX_INPUT_CHANNELS,
            }),
            assembler.bay.taken() == cmd_rx.taken(),
            assembler.bay.budget() == ASSEMBLER_RING_CAPACITY,
            assembler.bay.origin() == cmd_rx.origin(),
            assembler.bay.outbox().origin() == retire_tx.origin(),
            assembler.bay.outbox().sent() == retire_tx.sent(),
            assembler.bay.outbox().parked() == Seq::<Box<Attached>>::empty(),
            assembler.bay.outbox().places() == MAX_INPUT_DEVICES,
            assembler.wf(),
    {
        InputAssembler {
            bay: Bay::new(
                cmd_rx,
                retire_tx,
                MAX_INPUT_DEVICES,
                ASSEMBLER_RING_CAPACITY,
                MAX_INPUT_CHANNELS,
            ),
        }
    }

    /// Every attached device fits the input frame.
    pub open spec fn wf(&self) -> bool {
        all_fit(self.bay@) && self.bay@.frame == MAX_INPUT_CHANNELS
    }

    /// Obeys the waiting attach and detach commands.
    pub fn drain_commands(&mut self)
        requires
            old(self).wf(),
        ensures
            final(self).wf(),
            final(self).bay.cleared(),
            final(self).bay.outbox().carried_on(&old(self).bay.outbox()),
            final(self).bay.origin() == old(self).bay.origin(),
            old(self).bay.taken().is_prefix_of(final(self).bay.taken()),
            final(self).bay.budget() == old(self).bay.budget(),
            ({
                let commands = final(self).bay.taken().skip(old(self).bay.taken().len() as int);
                &&& commands.len() <= old(self).bay.budget()
                &&& final(self).bay.misses() == old(self).bay.misses() + if commands.len() < old(
                    self,
                ).bay.budget() {
                    1nat
                } else {
                    0nat
                }
                &&& final(self).bay@ == bay_after_all(
                    old(self).bay@,
                    commands,
                    commands.len() as int,
                )
            }),
    {
        let ghost before = self.bay@;
        let ghost history = self.bay.taken();
        self.bay.drain_commands();
        proof {
            let commands = self.bay.taken().skip(history.len() as int);
            lemma_frame_stays(before, commands, commands.len() as int);
        }
    }

    /// Fills so many frames: silence everywhere, then each device's samples at
    /// its offset. What a ring does not hold is silence too, and counted.
    pub fn fill(&mut self, frame: &mut Vec<Single>, frames: usize)
        requires
            old(self).wf(),
            frames * MAX_INPUT_CHANNELS <= old(frame)@.len(),
        ensures
            final(self).wf(),
            final(self).bay.taken() == old(self).bay.taken(),
            final(self).bay.budget() == old(self).bay.budget(),
            final(self).bay.outbox() == old(self).bay.outbox(),
            final(self).bay.origin() == old(self).bay.origin(),
            final(self).bay@.slots.len() == old(self).bay@.slots.len(),
            exists|pops: Seq<Seq<Option<Single>>>| #[trigger]
                filled(old(self).bay@.slots, final(self).bay@.slots, pops, frames as int)
                    && final(frame)@ == assembled(
                    old(frame)@,
                    old(self).bay@.slots,
                    pops,
                    frames as int,
                    old(self).bay@.slots.len() as int,
                ),
    {
        let ghost start = frame@;
        let ghost first = self.bay@;
        let ghost taken = self.bay.taken();
        let ghost budget = self.bay.budget();
        let ghost outbox = self.bay.outbox();
        let ghost origin = self.bay.origin();
        hush(frame, frames);
        let size: usize = self.bay.size();
        let ghost mut pops: Seq<Seq<Option<Single>>> = Seq::empty();
        let mut i: usize = 0;
        while i < size
            invariant
                i <= size == first.slots.len(),
                all_fit(first),
                first.frame == MAX_INPUT_CHANNELS,
                self.bay.taken() == taken,
                self.bay.budget() == budget,
                self.bay.outbox() == outbox,
                self.bay.origin() == origin,
                self.bay@.frame == first.frame,
                self.bay@.slots.len() == first.slots.len(),
                frames * MAX_INPUT_CHANNELS <= start.len(),
                frame@.len() == start.len(),
                pops.len() == i,
                forall|j: int|
                    0 <= j < i ==> drew(
                        first.slots[j],
                        #[trigger] self.bay@.slots[j],
                        pops[j],
                        frames as int,
                    ),
                forall|j: int| i <= j < size ==> #[trigger] self.bay@.slots[j] == first.slots[j],
                frame@ == assembled(start, first.slots, pops, frames as int, i as int),
            decreases size - i,
        {
            let ghost slots = self.bay@.slots;
            assert(slots[i as int] == first.slots[i as int]);
            let ghost mut drawn: Seq<Option<Single>> = Seq::empty();
            let slot: &mut Option<Box<Attached>> = self.bay.device_mut(i);
            if let Some(device) = slot {
                let (missing, found) = device.pour(frame, frames);
                proof {
                    drawn = found@;
                }
                if missing > 0 {
                    device.count_missing(missing);
                }
            }
            proof {
                let more = pops.push(drawn);
                lemma_assembled_reads_its_own(
                    start,
                    first.slots,
                    pops,
                    more,
                    frames as int,
                    i as int,
                );
                assert(more[i as int] == drawn);
                assert forall|j: int| 0 <= j < i + 1 implies drew(
                    first.slots[j],
                    #[trigger] self.bay@.slots[j],
                    more[j],
                    frames as int,
                ) by {
                    if j < i {
                        assert(self.bay@.slots[j] == slots[j]);
                        assert(more[j] == pops[j]);
                    }
                }
                pops = more;
            }
            i = i + 1;
        }
        proof {
            assert(filled(first.slots, self.bay@.slots, pops, frames as int));
            assert forall|j: int| 0 <= j < size implies ((#[trigger] self.bay@.slots[j]) matches Some(
                device,
            ) ==> device.place() + device.width() <= first.frame) by {
                assert(first.slots[j] matches Some(device) ==> device.place() + device.width()
                    <= first.frame);
            }
        }
    }
}

impl Attached {
    /// Adds to the count that the device's status reads. What the shared count then
    /// holds is not said.
    fn count_missing(&self, missing: u64) {
        self.shared.underruns.fetch_add(missing, Ordering::Relaxed);
    }
}

/// What became of every slot in one filling.
pub open spec fn filled(
    before: Seq<Option<Attached>>,
    after: Seq<Option<Attached>>,
    pops: Seq<Seq<Option<Single>>>,
    frames: int,
) -> bool {
    &&& pops.len() == before.len()
    &&& after.len() == before.len()
    &&& forall|j: int|
        0 <= j < before.len() ==> drew(before[j], #[trigger] after[j], pops[j], frames)
}

fn hush(frame: &mut Vec<Single>, frames: usize)
    requires
        frames * MAX_INPUT_CHANNELS <= old(frame)@.len(),
    ensures
        final(frame)@ == hushed(old(frame)@, frames as int),
{
    let ghost before = frame@;
    let length: usize = frame.len();
    let end: usize = frames * MAX_INPUT_CHANNELS;
    let mut i: usize = 0;
    while i < end
        invariant
            i <= end <= before.len(),
            end == frames * MAX_INPUT_CHANNELS,
            frame@.len() == before.len(),
            forall|j: int| 0 <= j < i ==> #[trigger] frame@[j] == (Single { bits: 0 }),
            forall|j: int| i <= j < before.len() ==> #[trigger] frame@[j] == before[j],
        decreases end - i,
    {
        frame[i] = Single { bits: 0 };
        i = i + 1;
    }
    assert(frame@ =~= hushed(before, frames as int));
}

proof fn lemma_assembled_reads_its_own(
    frame: Seq<Single>,
    slots: Seq<Option<Attached>>,
    a: Seq<Seq<Option<Single>>>,
    b: Seq<Seq<Option<Single>>>,
    frames: int,
    n: int,
)
    requires
        0 <= n <= a.len() <= b.len(),
        a.is_prefix_of(b),
    ensures
        assembled(frame, slots, a, frames, n) == assembled(frame, slots, b, frames, n),
        assembled(frame, slots, a, frames, n).len() == frame.len(),
    decreases n,
{
    if n > 0 {
        lemma_assembled_reads_its_own(frame, slots, a, b, frames, n - 1);
        assert(a[n - 1] == b[n - 1]);
    }
}

proof fn lemma_frame_stays(bay: BayView<Attached>, commands: Seq<BayCmd<Attached>>, n: int)
    requires
        0 <= n,
    ensures
        bay_after_all(bay, commands, n).frame == bay.frame,
    decreases n,
{
    if n > 0 {
        lemma_frame_stays(bay, commands, n - 1);
    }
}

/// Devices land side by side: where no two ranges overlap, the channel `c` of
/// the device in slot `s` carries what its ring gave, and a channel of the
/// frame that no device covers is silent.
pub proof fn devices_land_at_their_offsets(
    frame: Seq<Single>,
    slots: Seq<Option<Attached>>,
    pops: Seq<Seq<Option<Single>>>,
    frames: int,
    n: int,
    f: int,
    channel: int,
)
    requires
        0 <= n <= slots.len(),
        0 <= f < frames,
        frames * MAX_INPUT_CHANNELS <= frame.len(),
        0 <= channel < MAX_INPUT_CHANNELS,
        forall|i: int, j: int|
            0 <= i < j < slots.len() ==> (covers(#[trigger] slots[i], channel) ==> !covers(
                #[trigger] slots[j],
                channel,
            )),
    ensures
        assembled(frame, slots, pops, frames, n).len() == frame.len(),
        ({
            let at = assembled(frame, slots, pops, frames, n)[f * MAX_INPUT_CHANNELS + channel];
            &&& forall|s: int|
                0 <= s < n && covers(#[trigger] slots[s], channel) ==> at == heard(
                    pops[s][f * slots[s]->0.channels + (channel - slots[s]->0.offset)],
                )
            &&& (forall|s: int| 0 <= s < n ==> !covers(#[trigger] slots[s], channel)) ==> at == (
            Single { bits: 0 })
        }),
    decreases n,
{
    let width = MAX_INPUT_CHANNELS as int;
    let i = f * width + channel;
    assert(i / width == f && i % width == channel);
    assert(i < frames * width) by (nonlinear_arith)
        requires
            f < frames,
            i == f * width + channel,
            0 <= channel < width,
    ;
    if n > 0 {
        devices_land_at_their_offsets(frame, slots, pops, frames, n - 1, f, channel);
        let rest = assembled(frame, slots, pops, frames, n - 1);
        if covers(slots[n - 1], channel) {
            assert forall|s: int| 0 <= s < n && covers(#[trigger] slots[s], channel) implies s == n
                - 1 by {}
        }
    }
}

/// Whether a slot's device covers a channel of the frame.
pub open spec fn covers(slot: Option<Attached>, channel: int) -> bool {
    slot matches Some(device) && device.offset <= channel < device.offset + device.channels
}

} // verus!
