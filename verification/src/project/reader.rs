//! The take feeder: which frames of a track go into its ring, and when to start
//! over.
//!
//! The engine takes all rings in step, so every ring must carry the same frames.
//! A track that is shorter than the take is filled up with silence, and a loop
//! wraps by reopening the file at the loop's start.

use std::sync::atomic::AtomicBool;
use std::sync::atomic::Ordering;
use std::sync::Arc;

use vstd::prelude::*;

use crate::engine::ring::less;
use crate::engine::ring::one_by_one;
use crate::engine::ring::RingTx;
use crate::project::format::RecordFormat;
use crate::project::writer::silence;
use crate::single::Single;

verus! {

/// Seconds of sound that a playback ring holds.
pub const PLAYBACK_RING_SECS: u64 = 4;

/// One file of a take.
#[derive(Debug)]
pub struct TrackFile {
    /// The file's name within the take directory.
    pub file: String,
    pub channels: u16,
}

/// What to play: which files, over which span, wrapped where.
#[derive(Debug)]
pub struct PlaybackSource {
    pub take_dir: String,
    pub tracks: Vec<TrackFile>,
    pub sample_rate: u32,
    pub format: RecordFormat,
    /// The take's length: its longest track.
    pub total_frames: u64,
    pub start_frame: u64,
    /// Play this over and over instead of ending.
    pub loop_region: Option<(u64, u64)>,
}

/// The frame at which feeding ends: the loop's end, or the take's.
pub open spec fn end_of(total_frames: u64, loop_region: Option<(u64, u64)>) -> u64 {
    match loop_region {
        Some((_, end)) => end,
        None => total_frames,
    }
}

impl PlaybackSource {
    /// The frame at which feeding ends: the loop's end, or the take's.
    pub fn end(&self) -> (end: u64)
        ensures
            end == end_of(self.total_frames, self.loop_region),
    {
        match self.loop_region {
            Some((_, end)) => end,
            None => self.total_frames,
        }
    }

    /// How many samples the ring of a track holds.
    pub fn ring_samples(&self, channels: u16) -> (samples: u64)
        ensures
            samples == PLAYBACK_RING_SECS * self.sample_rate * channels,
    {
        let frames: u64 = PLAYBACK_RING_SECS * self.sample_rate as u64;
        assert(frames * channels <= 0x4_0000_0000 * 0x1_0000) by (nonlinear_arith)
            requires
                frames <= 0x4_0000_0000,
                channels <= 0x1_0000,
        ;
        frames * channels as u64
    }
}

/// What a file says of itself.
#[derive(Debug, Clone, Copy, PartialEq, Eq, Structural)]
pub struct FileSpec {
    pub channels: u16,
    pub sample_rate: u32,
    pub bits: u16,
    pub float: bool,
}

/// Whether a file is what the take's manifest says. FLAC holds whole numbers
/// only, so there is nothing to compare there.
pub open spec fn agrees(
    found: FileSpec,
    channels: u16,
    sample_rate: u32,
    format: RecordFormat,
) -> bool {
    &&& found.channels == channels
    &&& found.sample_rate == sample_rate
    &&& found.bits == format.depth()
    &&& format.flac() || found.float == (format == RecordFormat::Wav32Float)
}

/// Whether a file is what the take's manifest says. One that is not is refused,
/// never resampled or guessed at.
pub fn matches_manifest(
    found: FileSpec,
    channels: u16,
    sample_rate: u32,
    format: RecordFormat,
) -> (matched: bool)
    ensures
        matched == agrees(found, channels, sample_rate, format),
{
    found.channels == channels && found.sample_rate == sample_rate && found.bits
        == format.bits_per_sample() && (format.is_flac() || found.float == format.is_float())
}

/// The frame to seek to: the start, or the end of a file that is shorter. A WAV
/// file can only be sought within 32 bits.
pub fn seek_target(start_frame: u64, frames: u64, format: RecordFormat) -> (target: Option<u64>)
    ensures
        ({
            let at = if start_frame < frames {
                start_frame
            } else {
                frames
            };
            target == if format.flac() || at <= u32::MAX {
                Some(at)
            } else {
                None::<u64>
            }
        }),
{
    let at: u64 = if start_frame < frames {
        start_frame
    } else {
        frames
    };
    if format.is_flac() || at <= 0xFFFF_FFFF {
        Some(at)
    } else {
        None
    }
}

/// What ends the feeding of a take.
pub struct FeederHandle {
    stop: Arc<AtomicBool>,
}

impl FeederHandle {
    /// The flag that the feeders watch.
    pub closed spec fn flag(&self) -> Arc<AtomicBool> {
        self.stop
    }

    /// Ends the feeders that watch this flag.
    pub fn new(stop: Arc<AtomicBool>) -> (handle: FeederHandle)
        ensures
            handle.flag() == stop,
    {
        FeederHandle { stop }
    }

    /// Tells the feeders to end. What the shared flag then holds is not said.
    pub fn stop(&self) {
        self.stop.store(true, Ordering::Relaxed);
    }
}

/// The frames from the start to the end, before any loop.
pub open spec fn lead(start: int, end: int) -> int {
    if start < end {
        end - start
    } else {
        0
    }
}

/// The frame that is fed at step `n`: on from the start, and from the end back
/// to the loop's start.
pub open spec fn walk(start: int, end: int, loop_start: Option<int>, n: int) -> int {
    if n < lead(start, end) {
        start + n
    } else {
        match loop_start {
            Some(again) => again + (n - lead(start, end)) % (end - again),
            None => start + n,
        }
    }
}

/// Where a loop starts over.
pub open spec fn loop_start(loop_region: Option<(u64, u64)>) -> Option<int> {
    match loop_region {
        Some((again, _)) => Some(again as int),
        None => None,
    }
}

/// What goes into the ring for one frame: what was read of it, with silence for
/// what could not be.
pub open spec fn frame_of(got: Seq<Option<Single>>, audible: bool, channels: nat) -> Seq<Single> {
    Seq::new(
        channels,
        |c: int|
            if audible {
                match got[c] {
                    Some(sample) => sample,
                    None => silence(),
                }
            } else {
                silence()
            },
    )
}

/// Whether reading a frame failed in any channel.
pub open spec fn broke(got: Seq<Option<Single>>) -> bool {
    exists|c: int| 0 <= c < got.len() && (#[trigger] got[c]) is None
}

/// What to do once the ring was filled up.
#[derive(Debug, Clone, Copy, PartialEq, Eq, Structural)]
pub enum FeedStep {
    /// Wait for the ring to empty.
    Rest,
    /// The take was fed to its end.
    Finished,
    /// Open the file again at this frame, and go on; or wait where the ring was
    /// full before.
    Reopen { at: u64, rest: bool },
}

/// The feeding of one track.
pub struct TrackFeeder {
    pub channels: usize,
    /// Frames that the file holds; what lies behind is silence.
    pub frames: u64,
    /// A file that cannot be read any further goes on as silence.
    pub read_failed: bool,
    pub tx: RingTx<Single>,
    /// The next frame to feed.
    pub pos: u64,
    pub end: u64,
    pub loop_region: Option<(u64, u64)>,
    pub start: Ghost<int>,
    pub fed: Ghost<Seq<int>>,
}

impl TrackFeeder {
    /// The frames that were fed, in order.
    pub open spec fn fed(&self) -> Seq<int> {
        self.fed@
    }

    /// The frames fed are those of the walk from the start, and the next one
    /// goes on with it.
    pub open spec fn wf(&self) -> bool {
        let again = loop_start(self.loop_region);
        let n = self.fed().len() as int;
        &&& self.channels > 0
        &&& self.loop_region matches Some((a, e)) ==> a < self.end && e == self.end
        &&& forall|i: int|
            0 <= i < n ==> #[trigger] self.fed()[i] == walk(self.start@, self.end as int, again, i)
        &&& if self.pos < self.end {
            walk(self.start@, self.end as int, again, n) == self.pos
        } else {
            &&& n >= lead(self.start@, self.end as int)
            &&& again matches Some(a) ==> (n - lead(self.start@, self.end as int)) % (self.end - a)
                == 0
        }
    }

    /// A track of which nothing was fed.
    pub fn new(
        channels: u16,
        frames: u64,
        tx: RingTx<Single>,
        start: u64,
        end: u64,
        loop_region: Option<(u64, u64)>,
    ) -> (feeder: TrackFeeder)
        requires
            channels > 0,
            loop_region matches Some((a, e)) ==> a < end && e == end,
        ensures
            feeder.wf(),
            feeder.channels == channels,
            feeder.frames == frames,
            !feeder.read_failed,
            feeder.tx == tx,
            feeder.pos == start,
            feeder.end == end,
            feeder.loop_region == loop_region,
            feeder.start@ == start,
            feeder.fed() == Seq::<int>::empty(),
    {
        proof {
            if let Some((a, _)) = loop_region {
                assert(0int % (end - a) == 0) by (nonlinear_arith)
                    requires
                        end - a > 0,
                ;
            }
        }
        TrackFeeder {
            channels: channels as usize,
            frames,
            read_failed: false,
            tx,
            pos: start,
            end,
            loop_region,
            start: Ghost(start as int),
            fed: Ghost(Seq::empty()),
        }
    }

    /// The frames that a ring with so many free slots has room for, and how many
    /// of them there are to feed before the end.
    pub fn plan_for(&self, slots: usize) -> (plan: (usize, usize))
        requires
            self.channels > 0,
        ensures
            plan.0 == slots as int / self.channels as int,
            plan.1 == if self.pos >= self.end {
                0
            } else if self.end - self.pos < plan.0 {
                self.end - self.pos
            } else {
                plan.0 as int
            },
    {
        let space: usize = slots / self.channels;
        let left: u64 = if self.pos < self.end {
            self.end - self.pos
        } else {
            0
        };
        let count: usize = if left < space as u64 {
            left as usize
        } else {
            space
        };
        (space, count)
    }

    /// The frames that the ring has room for now, and how many of them there are to
    /// feed before the end.
    pub fn plan(&mut self) -> (plan: (usize, usize))
        requires
            old(self).channels > 0,
        ensures
            ({
                let room = final(self).tx.rooms().last();
                &&& final(self).tx.rooms() == old(self).tx.rooms().push(room)
                &&& plan.0 == room as int / old(self).channels as int
                &&& final(self).tx.room() == room
            }),
            plan.0 * old(self).channels <= final(self).tx.room(),
            plan.1 == if old(self).pos >= old(self).end {
                0
            } else if old(self).end - old(self).pos < plan.0 {
                old(self).end - old(self).pos
            } else {
                plan.0 as int
            },
            final(self).tx.sent() == old(self).tx.sent(),
            final(self).tx.offered() == old(self).tx.offered(),
            final(self).tx.origin() == old(self).tx.origin(),
            *final(self) == (TrackFeeder { tx: final(self).tx, ..*old(self) }),
    {
        let room: usize = self.tx.slots();
        let ghost channels = self.channels as int;
        assert(room as int / channels * channels <= room) by (nonlinear_arith)
            requires
                channels > 0,
                room >= 0,
        ;
        self.plan_for(room)
    }

    /// Whether the next frame is to be read from the file.
    pub open spec fn audible(&self) -> bool {
        self.pos < self.frames && !self.read_failed
    }

    /// Whether the next frame is to be read from the file.
    pub fn is_real(&self) -> (audible: bool)
        ensures
            audible == self.audible(),
    {
        self.pos < self.frames && !self.read_failed
    }

    /// Feeds the next frame: what was read of it, one result per channel, or
    /// silence where it is not to be read. Whether all of it found room, which it
    /// does where there was room for it when it was planned.
    pub fn feed(&mut self, got: &Vec<Option<Single>>) -> (whole: bool)
        requires
            old(self).wf(),
            old(self).pos < old(self).end,
            old(self).audible() ==> got@.len() == old(self).channels,
        ensures
            final(self).wf(),
            final(self).fed() == old(self).fed().push(old(self).pos as int),
            final(self).pos == old(self).pos + 1,
            final(self).read_failed == (old(self).read_failed || (old(self).audible() && broke(got@))),
            whole ==> final(self).tx.sent() == old(self).tx.sent() + frame_of(
                got@,
                old(self).audible(),
                old(self).channels as nat,
            ),
            final(self).tx.offered() == old(self).tx.offered() + one_by_one(
                frame_of(got@, old(self).audible(), old(self).channels as nat),
            ),
            old(self).tx.room() >= old(self).channels ==> whole,
            final(self).tx.room() == less(old(self).tx.room(), old(self).channels as nat),
            final(self).tx.rooms() == old(self).tx.rooms(),
            final(self).tx.origin() == old(self).tx.origin(),
            old(self).tx.sent().is_prefix_of(final(self).tx.sent()),
            final(self).channels == old(self).channels,
            final(self).frames == old(self).frames,
            final(self).end == old(self).end,
            final(self).loop_region == old(self).loop_region,
            final(self).start == old(self).start,
    {
        let audible: bool = self.is_real();
        let ghost before = *self;
        let ghost frame = frame_of(got@, audible, self.channels as nat);
        let mut whole: bool = true;
        let mut failed: bool = false;
        let mut c: usize = 0;
        assert(self.tx.sent() =~= before.tx.sent() + frame.take(0));
        assert(self.tx.offered() =~= before.tx.offered() + one_by_one(frame.take(0)));
        while c < self.channels
            invariant
                c <= self.channels,
                audible ==> got@.len() == self.channels,
                frame == frame_of(got@, audible, self.channels as nat),
                whole ==> self.tx.sent() == before.tx.sent() + frame.take(c as int),
                self.tx.offered() == before.tx.offered() + one_by_one(frame.take(c as int)),
                before.tx.room() >= before.channels ==> whole,
                self.tx.room() == less(before.tx.room(), c as nat),
                self.tx.rooms() == before.tx.rooms(),
                self.tx.origin() == before.tx.origin(),
                before.tx.sent().is_prefix_of(self.tx.sent()),
                failed == (audible && exists|k: int| 0 <= k < c && (#[trigger] got@[k]) is None),
                self.channels == before.channels,
                self.frames == before.frames,
                self.read_failed == before.read_failed,
                self.pos == before.pos,
                self.end == before.end,
                self.loop_region == before.loop_region,
                self.start == before.start,
                self.fed == before.fed,
            decreases self.channels - c,
        {
            let sample: Single = if audible {
                match got[c] {
                    Some(sample) => sample,
                    None => {
                        failed = true;
                        assert(got@[c as int] is None);
                        Single { bits: 0 }
                    },
                }
            } else {
                Single { bits: 0 }
            };
            assert(sample == frame[c as int]);
            if self.tx.push(sample).is_err() {
                whole = false;
            }
            assert(frame.take(c + 1) =~= frame.take(c as int).push(sample));
            c = c + 1;
            assert(whole ==> self.tx.sent() =~= before.tx.sent() + frame.take(c as int));
            assert(self.tx.offered() =~= before.tx.offered() + one_by_one(frame.take(c as int)));
        }
        assert(frame.take(c as int) =~= frame);
        if failed {
            self.read_failed = true;
        }
        let at: u64 = self.pos;
        self.pos = at + 1;
        proof {
            self.fed@ = before.fed().push(at as int);
            lemma_walk_on(
                before.start@,
                before.end as int,
                loop_start(before.loop_region),
                before.fed().len() as int,
                at as int,
            );
        }
        whole
    }

    /// What to do once `count` frames were fed into room for `space`.
    pub fn after(&self, space: usize, count: usize) -> (step: FeedStep)
        ensures
            step == if self.pos < self.end {
                FeedStep::Rest
            } else {
                match self.loop_region {
                    None => FeedStep::Finished,
                    Some((again, _)) => FeedStep::Reopen {
                        at: again,
                        rest: count == 0 && space == 0,
                    },
                }
            },
    {
        if self.pos < self.end {
            FeedStep::Rest
        } else {
            match self.loop_region {
                None => FeedStep::Finished,
                Some((again, _)) => FeedStep::Reopen { at: again, rest: count == 0 && space == 0 },
            }
        }
    }

    /// Goes on from the loop's start, in the file as it was found on reopening.
    pub fn reopened(&mut self, frames: u64)
        requires
            old(self).wf(),
            old(self).pos >= old(self).end,
            old(self).loop_region is Some,
        ensures
            final(self).wf(),
            final(self).loop_region matches Some((again, _)) && final(self).pos == again,
            final(self).frames == frames,
            !final(self).read_failed,
            final(self).channels == old(self).channels,
            final(self).tx == old(self).tx,
            final(self).end == old(self).end,
            final(self).loop_region == old(self).loop_region,
            final(self).start == old(self).start,
            final(self).fed() == old(self).fed(),
    {
        if let Some((again, _)) = self.loop_region {
            self.pos = again;
            self.frames = frames;
            self.read_failed = false;
        }
    }
}

proof fn lemma_walk_on(start: int, end: int, again: Option<int>, n: int, at: int)
    requires
        0 <= n,
        at < end,
        again matches Some(a) ==> a < end,
        walk(start, end, again, n) == at,
    ensures
        if at + 1 < end {
            walk(start, end, again, n + 1) == at + 1
        } else {
            &&& n + 1 >= lead(start, end)
            &&& again matches Some(a) ==> (n + 1 - lead(start, end)) % (end - a) == 0
        },
{
    if n >= lead(start, end) {
        if let Some(a) = again {
            let span = end - a;
            let m = n - lead(start, end);
            assert(at == a + m % span);
            assert((m + 1) % span == if m % span + 1 == span {
                0
            } else {
                m % span + 1
            }) by (nonlinear_arith)
                requires
                    span > 0,
                    m >= 0,
            ;
        }
    } else if n + 1 == lead(start, end) {
        if let Some(a) = again {
            assert(0int % (end - a) == 0) by (nonlinear_arith)
                requires
                    end - a > 0,
            ;
        }
    }
}

/// A loop wraps without a seam: each frame is followed by the next one, and the
/// last one of the loop by the first.
pub proof fn a_loop_wraps_seamlessly(start: int, end: int, again: int, n: int)
    requires
        0 <= n,
        again < end,
    ensures
        ({
            let at = walk(start, end, Some(again), n);
            walk(start, end, Some(again), n + 1) == if at + 1 == end {
                again
            } else {
                at + 1
            }
        }),
        walk(start, end, Some(again), n) < end,
{
    let at = walk(start, end, Some(again), n);
    if n >= lead(start, end) {
        let m = n - lead(start, end);
        let span = end - again;
        assert(0 <= m % span < span) by (nonlinear_arith)
            requires
                span > 0,
        ;
    }
    lemma_walk_on(start, end, Some(again), n, at);
}

/// Tracks of one take that were fed as many frames were fed the same frames,
/// however much room each ring had.
pub proof fn tracks_stay_in_step(a: TrackFeeder, b: TrackFeeder)
    requires
        a.wf(),
        b.wf(),
        a.start == b.start,
        a.end == b.end,
        a.loop_region == b.loop_region,
        a.fed().len() == b.fed().len(),
    ensures
        a.fed() == b.fed(),
{
    assert(a.fed() =~= b.fed());
}

} // verus!
