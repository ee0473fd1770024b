//! The tape return: lanes of a take, popped in lockstep and gated by solo and
//! mute.

use std::sync::atomic::AtomicBool;
use std::sync::atomic::AtomicU64;
use std::sync::atomic::Ordering;
use std::sync::Arc;

use vstd::prelude::*;

use crate::engine::ring::less;
use crate::engine::ring::tell_the_end;
use crate::engine::ring::Look;
use crate::engine::ring::RingRx;
use crate::single::Single;

verus! {

/// How far a session has come, as other threads see it.
#[derive(Debug)]
pub struct PlaybackShared {
    /// Frames popped since the session started.
    pub position: AtomicU64,
    pub finished: AtomicBool,
}

impl Default for PlaybackShared {
    fn default() -> PlaybackShared {
        PlaybackShared { position: AtomicU64::new(0), finished: AtomicBool::new(false) }
    }
}

/// Whether a lane sounds, and whether that was decided anew since the audio
/// side last looked.
#[derive(Debug, Clone, Copy, PartialEq, Eq, Structural)]
pub struct Gate {
    pub open: bool,
    pub moved: bool,
}

/// One lane of a take.
pub struct PlaybackTrack<G> {
    pub rx: RingRx<Single>,
    /// 1 is mono, 2 is interleaved stereo.
    pub channels: u16,
    pub is_master: bool,
    pub solo: bool,
    pub mute: bool,
    pub gate: Gate,
    /// How the audio side ramps between open and shut.
    pub ramp: G,
}

/// The program rule: a muted lane is silent; with any solo exactly the soloed
/// lanes sound; else the master where there is one; else every lane.
pub open spec fn audible<G>(has_master: bool, any_solo: bool, track: PlaybackTrack<G>) -> bool {
    &&& !track.mute
    &&& if any_solo {
        track.solo
    } else {
        has_master ==> track.is_master
    }
}

/// Whether a lane sounds under the program rule.
pub fn lane_audible<G>(has_master: bool, any_solo: bool, track: &PlaybackTrack<G>) -> (sounds: bool)
    ensures
        sounds == audible(has_master, any_solo, *track),
{
    if track.mute {
        return false;
    }
    if any_solo {
        return track.solo;
    }
    if has_master {
        return track.is_master;
    }
    true
}

/// Whether any lane is soloed.
pub open spec fn any_solo<G>(tracks: Seq<PlaybackTrack<G>>) -> bool {
    exists|i: int| 0 <= i < tracks.len() && (#[trigger] tracks[i]).solo
}

/// A lane with its gate as the program rule has it.
pub open spec fn gated<G>(
    has_master: bool,
    any_solo: bool,
    track: PlaybackTrack<G>,
) -> PlaybackTrack<G> {
    PlaybackTrack {
        gate: Gate { open: audible(has_master, any_solo, track), moved: true },
        ..track
    }
}

/// All lanes with their gates as the program rule has them.
pub open spec fn retargeted<G>(tracks: Seq<PlaybackTrack<G>>, has_master: bool) -> Seq<
    PlaybackTrack<G>,
> {
    Seq::new(tracks.len(), |i: int| gated(has_master, any_solo(tracks), tracks[i]))
}

/// What a look at a lane's ring showed.
#[derive(Debug, Clone, Copy, PartialEq, Eq, Structural)]
pub struct LaneSeen {
    /// The feeder is gone and the ring is empty.
    pub ended: bool,
    pub slots: usize,
}

/// The frames that a lane leaves possible. An ended lane does not hold the
/// others up.
pub open spec fn limit(seen: LaneSeen, channels: u16, frames: usize) -> usize {
    if seen.ended || frames <= seen.slots / (channels as usize) {
        frames
    } else {
        seen.slots / (channels as usize)
    }
}

impl LaneSeen {
    /// The frames that a lane leaves possible.
    pub fn limit(self, channels: u16, frames: usize) -> (possible: usize)
        requires
            channels > 0,
        ensures
            possible == limit(self, channels, frames),
    {
        if self.ended {
            return frames;
        }
        let whole: usize = self.slots / (channels as usize);
        if frames <= whole {
            frames
        } else {
            whole
        }
    }
}

/// The frames that the first `n` lanes leave possible.
pub open spec fn lockstep<G>(
    tracks: Seq<PlaybackTrack<G>>,
    seen: Seq<LaneSeen>,
    frames: usize,
    n: int,
) -> usize
    decreases n,
{
    if n <= 0 {
        frames
    } else {
        limit(seen[n - 1], tracks[n - 1].channels, lockstep(tracks, seen, frames, n - 1))
    }
}

/// Whether every lane has ended.
pub open spec fn all_ended(seen: Seq<LaneSeen>) -> bool {
    forall|i: int| 0 <= i < seen.len() ==> (#[trigger] seen[i]).ended
}

/// What a chunk of the tape return comes to.
#[derive(Debug, Clone, Copy, PartialEq, Eq, Structural)]
pub enum Pull {
    /// The tape has run out.
    Finished,
    /// Every lane gives this many frames.
    Frames(usize),
}

/// What a chunk comes to, as far as the lanes have been looked at.
#[derive(Debug, Clone, Copy, PartialEq, Eq, Structural)]
pub struct Pulling {
    /// The frames that the lanes leave possible so far.
    pub possible: usize,
    /// Every lane so far has ended.
    pub done: bool,
}

impl Pulling {
    /// Before the first lane everything is possible.
    pub fn start(frames: usize) -> (pulling: Pulling)
        ensures
            pulling == (Pulling { possible: frames, done: true }),
    {
        Pulling { possible: frames, done: true }
    }

    /// Takes in what a look at one more lane showed.
    pub fn see(self, lane: LaneSeen, channels: u16) -> (next: Pulling)
        requires
            channels > 0,
        ensures
            next == (Pulling {
                possible: limit(lane, channels, self.possible),
                done: self.done && lane.ended,
            }),
    {
        Pulling {
            possible: lane.limit(channels, self.possible),
            done: self.done && lane.ended,
        }
    }

    /// What the chunk comes to, once every lane was looked at.
    pub fn verdict(self) -> (pull: Pull)
        ensures
            pull == if self.done {
                Pull::Finished
            } else {
                Pull::Frames(self.possible)
            },
    {
        if self.done {
            Pull::Finished
        } else {
            Pull::Frames(self.possible)
        }
    }
}

/// What a chunk comes to, given what a look at every lane showed.
pub open spec fn pull_of<G>(
    tracks: Seq<PlaybackTrack<G>>,
    seen: Seq<LaneSeen>,
    frames: usize,
) -> Pull {
    if all_ended(seen) {
        Pull::Finished
    } else {
        Pull::Frames(lockstep(tracks, seen, frames, tracks.len() as int))
    }
}

/// What the other threads were told of a session: the frames that were popped, and
/// whether the tape has run out. The record is this end's own and does not speak of
/// what the shared cells hold.
pub ghost struct PlaybackTold {
    pub frames: int,
    pub finished: bool,
}

/// A playback session.
pub struct PlaybackSet<G> {
    pub tracks: Vec<PlaybackTrack<G>>,
    pub has_master: bool,
    pub shared: Arc<PlaybackShared>,
    pub told: Ghost<PlaybackTold>,
}

impl<G> PlaybackTrack<G> {
    /// Takes one frame out of the lane's ring. A mono lane sounds on both sides;
    /// what the ring does not hold is silence.
    pub fn pop_frame(&mut self) -> (frame: (Single, Single))
        ensures
            *final(self) == (PlaybackTrack { rx: final(self).rx, ..*old(self) }),
            ({
                let silence = Single { bits: 0 };
                let before = old(self).rx.taken();
                let after = final(self).rx.taken();
                if old(self).channels == 2 {
                    ||| after == before.push(frame.0).push(frame.1)
                    ||| after == before.push(frame.0) && frame.1 == silence
                    ||| after == before.push(frame.1) && frame.0 == silence
                    ||| after == before && frame == (silence, silence)
                } else {
                    &&& frame.0 == frame.1
                    &&& after == before.push(frame.0) || after == before && frame.0 == silence
                }
            }),
            final(self).rx.taken().len() + final(self).rx.misses() == old(self).rx.taken().len()
                + old(self).rx.misses() + if old(self).channels == 2 {
                2nat
            } else {
                1nat
            },
            final(self).rx.looks() == old(self).rx.looks(),
            final(self).rx.origin() == old(self).rx.origin(),
            ({
                let width: nat = if old(self).channels == 2 {
                    2
                } else {
                    1
                };
                &&& final(self).rx.waiting() == less(old(self).rx.waiting(), width)
                &&& old(self).rx.waiting() >= width ==> final(self).rx.misses() == old(
                    self,
                ).rx.misses()
            }),
    {
        let silence = Single { bits: 0 };
        if self.channels == 2 {
            let l: Single = match self.rx.pop() {
                Some(sample) => sample,
                None => silence,
            };
            let r: Single = match self.rx.pop() {
                Some(sample) => sample,
                None => silence,
            };
            (l, r)
        } else {
            let both: Single = match self.rx.pop() {
                Some(sample) => sample,
                None => silence,
            };
            (both, both)
        }
    }

    /// Takes so many frames out of the lane's ring, and adds them to `out`.
    pub fn pop_frames(&mut self, frames: usize, out: &mut Vec<(Single, Single)>)
        ensures
            old(out)@.is_prefix_of(final(out)@),
            final(out)@.len() == old(out)@.len() + frames,
            lane_popped(*old(self), *final(self), final(out)@.skip(old(out)@.len() as int)),
    {
        let ghost before = *self;
        let ghost held = out@;
        let ghost stereo = before.channels == 2;
        let ghost mut popped: Seq<Option<Single>> = Seq::empty();
        let mut n: usize = 0;
        assert(self.rx.taken() =~= before.rx.taken() + drawn(popped));
        while n < frames
            invariant
                n <= frames,
                stereo == (before.channels == 2),
                *self == (PlaybackTrack { rx: self.rx, ..before }),
                held.is_prefix_of(out@),
                out@.len() == held.len() + n,
                popped.len() == if stereo {
                    2 * n
                } else {
                    n as int
                },
                self.rx.taken() == before.rx.taken() + drawn(popped),
                self.rx.misses() + drawn(popped).len() == before.rx.misses() + popped.len(),
                self.rx.looks() == before.rx.looks(),
                self.rx.origin() == before.rx.origin(),
                self.rx.waiting() == less(before.rx.waiting(), popped.len()),
                before.rx.waiting() >= popped.len() ==> self.rx.misses() == before.rx.misses(),
                forall|f: int|
                    0 <= f < n ==> #[trigger] out@[held.len() + f] == frame_heard(popped, f, stereo),
            decreases frames - n,
        {
            let ghost so_far = self.rx;
            let ghost earlier = popped;
            let ghost laid = out@;
            let frame: (Single, Single) = self.pop_frame();
            out.push(frame);
            proof {
                let more = self.rx.taken().len() - so_far.taken().len();
                let first = if more == 2 || (more == 1 && !stereo) || (more == 1 && self.rx.taken()
                    == so_far.taken().push(frame.0) && frame.1 == (Single { bits: 0 })) {
                    Some(frame.0)
                } else {
                    None
                };
                let second = if more == 2 || (more == 1 && first is None) {
                    Some(frame.1)
                } else {
                    None
                };
                let one = earlier.push(first);
                lemma_one_more_drawn(earlier, first);
                lemma_one_more_drawn(one, second);
                popped = if stereo {
                    one.push(second)
                } else {
                    one
                };
                assert(self.rx.taken() =~= before.rx.taken() + drawn(popped));
                assert forall|f: int| 0 <= f < n + 1 implies #[trigger] out@[held.len() + f]
                    == frame_heard(popped, f, stereo) by {
                    if f < n {
                        assert(laid[held.len() + f] == frame_heard(earlier, f, stereo));
                    }
                }
            }
            n = n + 1;
        }
        proof {
            let taken = out@.skip(held.len() as int);
            assert forall|f: int| 0 <= f < taken.len() implies #[trigger] taken[f] == frame_heard(
                popped,
                f,
                stereo,
            ) by {
                assert(taken[f] == out@[held.len() + f]);
            }
            assert(pops_made(before, *self, taken, popped));
        }
    }

    /// What a look at the lane's ring shows. That depends on the feeder.
    fn look(&mut self) -> (seen: LaneSeen)
        ensures
            lane_looked(*old(self), *final(self), seen),
    {
        let ghost before = self.rx.looks();
        let ended: bool = self.rx.has_ended();
        let ghost told = self.rx.looks();
        let slots: usize = self.rx.slots();
        let ghost looks = self.rx.looks().skip(before.len() as int);
        assert(looks.drop_last() =~= told.skip(before.len() as int));
        LaneSeen { ended, slots }
    }
}

/// The values that came of asking a ring again and again.
pub open spec fn drawn(popped: Seq<Option<Single>>) -> Seq<Single>
    decreases popped.len(),
{
    if popped.len() == 0 {
        Seq::empty()
    } else {
        match popped.last() {
            Some(value) => drawn(popped.drop_last()).push(value),
            None => drawn(popped.drop_last()),
        }
    }
}

/// What is heard of a value, or of none: silence.
pub open spec fn or_silence(popped: Option<Single>) -> Single {
    match popped {
        Some(value) => value,
        None => Single { bits: 0 },
    }
}

/// One frame of what was asked for: two values, or one on both sides.
pub open spec fn frame_heard(popped: Seq<Option<Single>>, f: int, stereo: bool) -> (
    Single,
    Single,
) {
    if stereo {
        (or_silence(popped[2 * f]), or_silence(popped[2 * f + 1]))
    } else {
        (or_silence(popped[f]), or_silence(popped[f]))
    }
}

/// Whether a lane was asked for these values, and gave these frames.
pub open spec fn pops_made<G>(
    before: PlaybackTrack<G>,
    after: PlaybackTrack<G>,
    frames: Seq<(Single, Single)>,
    popped: Seq<Option<Single>>,
) -> bool {
    let stereo = before.channels == 2;
    &&& after == (PlaybackTrack { rx: after.rx, ..before })
    &&& after.rx.looks() == before.rx.looks()
    &&& after.rx.origin() == before.rx.origin()
    &&& after.rx.waiting() == less(before.rx.waiting(), popped.len())
    &&& before.rx.waiting() >= popped.len() ==> after.rx.misses() == before.rx.misses()
    &&& popped.len() == if stereo {
        2 * frames.len()
    } else {
        frames.len()
    }
    &&& after.rx.taken() == before.rx.taken() + drawn(popped)
    &&& after.rx.misses() + drawn(popped).len() == before.rx.misses() + popped.len()
    &&& forall|f: int|
        0 <= f < frames.len() ==> #[trigger] frames[f] == frame_heard(popped, f, stereo)
}

/// Whether a lane gave these frames: it was asked for as many values as they have,
/// and what it did not hold is silence.
pub open spec fn lane_popped<G>(
    before: PlaybackTrack<G>,
    after: PlaybackTrack<G>,
    frames: Seq<(Single, Single)>,
) -> bool {
    exists|popped: Seq<Option<Single>>| #[trigger] pops_made(before, after, frames, popped)
}

/// The frames of one lane among those of all of them, lane after lane.
pub open spec fn lane_frames(
    out: Seq<(Single, Single)>,
    lane: int,
    frames: int,
) -> Seq<(Single, Single)> {
    out.subrange(lane * frames, lane * frames + frames)
}

/// Whether a lane differs from an earlier state in nothing but one look at its ring,
/// which showed this: whether it has ended, then how many values are waiting.
pub open spec fn lane_looked<G>(
    before: PlaybackTrack<G>,
    after: PlaybackTrack<G>,
    seen: LaneSeen,
) -> bool {
    let looks = after.rx.looks().skip(before.rx.looks().len() as int);
    &&& after == (PlaybackTrack { rx: after.rx, ..before })
    &&& after.rx.taken() == before.rx.taken()
    &&& after.rx.misses() == before.rx.misses()
    &&& after.rx.origin() == before.rx.origin()
    &&& after.rx.waiting() == seen.slots
    &&& before.rx.looks().is_prefix_of(after.rx.looks())
    &&& looks.len() > 0
    &&& tell_the_end(looks.drop_last(), seen.ended)
    &&& looks.last() == Look::Waiting(seen.slots)
}

/// Whether the lanes differ from an earlier state in nothing but one look at each.
pub open spec fn lanes_looked<G>(
    before: Seq<PlaybackTrack<G>>,
    after: Seq<PlaybackTrack<G>>,
    seen: Seq<LaneSeen>,
) -> bool {
    &&& after.len() == before.len() == seen.len()
    &&& forall|i: int|
        0 <= i < before.len() ==> lane_looked(before[i], #[trigger] after[i], seen[i])
}

impl<G> PlaybackSet<G> {
    /// Every lane has channels.
    pub open spec fn wf(&self) -> bool {
        forall|i: int| 0 <= i < self.tracks@.len() ==> (#[trigger] self.tracks@[i]).channels > 0
    }

    /// A session whose gates are on their way to what the program rule says.
    pub fn new(tracks: Vec<PlaybackTrack<G>>, has_master: bool) -> (set: PlaybackSet<G>)
        ensures
            set.tracks@ == retargeted(tracks@, has_master),
            set.has_master == has_master,
            set.told@ == (PlaybackTold { frames: 0, finished: false }),
    {
        let mut set = PlaybackSet {
            tracks,
            has_master,
            shared: Arc::new(PlaybackShared::default()),
            told: Ghost(PlaybackTold { frames: 0, finished: false }),
        };
        set.retarget_gates();
        set
    }

    /// Solos a lane or ends its solo. A lane that is not there is ignored.
    pub fn set_solo(&mut self, track: u16, on: bool)
        ensures
            final(self).tracks@ == if track < old(self).tracks@.len() {
                let lane = old(self).tracks@[track as int];
                retargeted(
                    old(self).tracks@.update(track as int, PlaybackTrack { solo: on, ..lane }),
                    old(self).has_master,
                )
            } else {
                old(self).tracks@
            },
            final(self).has_master == old(self).has_master,
            final(self).shared == old(self).shared,
            final(self).told == old(self).told,
    {
        let index: usize = track as usize;
        let ghost before = self.tracks@;
        if index < self.tracks.len() {
            self.tracks[index].solo = on;
            assert(self.tracks@ =~= before.update(
                track as int,
                PlaybackTrack { solo: on, ..before[track as int] },
            ));
            self.retarget_gates();
        }
    }

    /// Mutes a lane or ends its mute. A lane that is not there is ignored.
    pub fn set_mute(&mut self, track: u16, on: bool)
        ensures
            final(self).tracks@ == if track < old(self).tracks@.len() {
                let lane = old(self).tracks@[track as int];
                retargeted(
                    old(self).tracks@.update(track as int, PlaybackTrack { mute: on, ..lane }),
                    old(self).has_master,
                )
            } else {
                old(self).tracks@
            },
            final(self).has_master == old(self).has_master,
            final(self).shared == old(self).shared,
            final(self).told == old(self).told,
    {
        let index: usize = track as usize;
        let ghost before = self.tracks@;
        if index < self.tracks.len() {
            self.tracks[index].mute = on;
            assert(self.tracks@ =~= before.update(
                track as int,
                PlaybackTrack { mute: on, ..before[track as int] },
            ));
            self.retarget_gates();
        }
    }

    fn has_solo(&self) -> (any: bool)
        ensures
            any == any_solo(self.tracks@),
    {
        let mut i: usize = 0;
        while i < self.tracks.len()
            invariant
                i <= self.tracks.len(),
                forall|j: int| 0 <= j < i ==> !(#[trigger] self.tracks@[j]).solo,
            decreases self.tracks.len() - i,
        {
            if self.tracks[i].solo {
                assert(self.tracks@[i as int].solo);
                return true;
            }
            i = i + 1;
        }
        false
    }

    /// Sets every gate anew: one flip can change every lane.
    fn retarget_gates(&mut self)
        ensures
            final(self).tracks@ == retargeted(old(self).tracks@, old(self).has_master),
            final(self).has_master == old(self).has_master,
            final(self).shared == old(self).shared,
            final(self).told == old(self).told,
    {
        let ghost before = self.tracks@;
        let any: bool = self.has_solo();
        let has_master: bool = self.has_master;
        let ghost shared = self.shared;
        let ghost told = self.told;
        let mut i: usize = 0;
        while i < self.tracks.len()
            invariant
                i <= self.tracks.len(),
                self.tracks@.len() == before.len(),
                self.has_master == has_master,
                self.shared == shared,
                self.told == told,
                forall|j: int|
                    0 <= j < i ==> #[trigger] self.tracks@[j] == gated(has_master, any, before[j]),
                forall|j: int| i <= j < before.len() ==> #[trigger] self.tracks@[j] == before[j],
            decreases self.tracks.len() - i,
        {
            let open: bool = lane_audible(has_master, any, &self.tracks[i]);
            self.tracks[i].gate = Gate { open, moved: true };
            i = i + 1;
        }
        assert(self.tracks@ =~= retargeted(before, has_master));
    }

    /// Looks at every lane and decides how far all of them can go together.
    /// What the looks show depends on the feeders.
    pub fn begin_chunk(&mut self, frames: usize) -> (pull: Pull)
        requires
            old(self).wf(),
        ensures
            exists|seen: Seq<LaneSeen>|
                lanes_looked(old(self).tracks@, final(self).tracks@, seen) && pull
                    == #[trigger] pull_of(old(self).tracks@, seen, frames),
            final(self).wf(),
            final(self).has_master == old(self).has_master,
            final(self).shared == old(self).shared,
            final(self).told@ == (PlaybackTold {
                finished: old(self).told@.finished || pull is Finished,
                ..old(self).told@
            }),
    {
        let ghost before = self.tracks@;
        let mut pulling: Pulling = Pulling::start(frames);
        let ghost mut seen: Seq<LaneSeen> = Seq::empty();
        let mut i: usize = 0;
        while i < self.tracks.len()
            invariant
                before == old(self).tracks@,
                self.has_master == old(self).has_master,
                self.shared == old(self).shared,
                self.told == old(self).told,
                forall|j: int| 0 <= j < before.len() ==> (#[trigger] before[j]).channels > 0,
                i <= self.tracks.len() == before.len(),
                seen.len() == i,
                forall|j: int|
                    0 <= j < i ==> lane_looked(before[j], #[trigger] self.tracks@[j], seen[j]),
                forall|j: int| i <= j < before.len() ==> #[trigger] self.tracks@[j] == before[j],
                pulling.possible == lockstep(before, seen, frames, i as int),
                pulling.done == all_ended(seen),
            decreases self.tracks.len() - i,
        {
            let ghost lanes = self.tracks@;
            assert(lanes[i as int] == before[i as int]);
            let lane: LaneSeen = self.tracks[i].look();
            assert(forall|j: int|
                0 <= j < lanes.len() && j != i ==> #[trigger] self.tracks@[j] == lanes[j]);
            let ghost wider = seen.push(lane);
            let ghost done = pulling.done;
            pulling = pulling.see(lane, self.tracks[i].channels);
            proof {
                lemma_lockstep_reads_its_lanes(before, seen, wider, frames, i as int);
                assert(wider[i as int] == lane);
                if all_ended(wider) {
                    assert forall|j: int| 0 <= j < seen.len() implies (#[trigger] seen[j]).ended by {
                        assert(wider[j].ended);
                    }
                }
                if done && lane.ended {
                    assert forall|j: int| 0 <= j < wider.len() implies (
                    #[trigger] wider[j]).ended by {
                        if j < seen.len() {
                            assert(seen[j].ended);
                        }
                    }
                }
                seen = wider;
            }
            i = i + 1;
        }
        assert(lanes_looked(before, self.tracks@, seen));
        if pulling.done {
            self.mark_finished();
        }
        let pull: Pull = pulling.verdict();
        assert(pull == pull_of(before, seen, frames));
        pull
    }

    /// Takes so many frames out of every lane: all of the first lane's, then all of
    /// the second's, and so on.
    pub fn pop_frames(&mut self, frames: usize, out: &mut Vec<(Single, Single)>)
        ensures
            final(out)@.len() == old(self).tracks@.len() * frames,
            final(self).tracks@.len() == old(self).tracks@.len(),
            forall|i: int|
                0 <= i < old(self).tracks@.len() ==> lane_popped(
                    old(self).tracks@[i],
                    #[trigger] final(self).tracks@[i],
                    lane_frames(final(out)@, i, frames as int),
                ),
            final(self).has_master == old(self).has_master,
            final(self).shared == old(self).shared,
            final(self).told == old(self).told,
    {
        let ghost before = *self;
        out.clear();
        let mut i: usize = 0;
        assert(0 * frames == 0) by (nonlinear_arith);
        while i < self.tracks.len()
            invariant
                i <= self.tracks.len() == before.tracks@.len(),
                self.has_master == before.has_master,
                self.shared == before.shared,
                self.told == before.told,
                out@.len() == i * frames,
                forall|j: int|
                    0 <= j < i ==> lane_popped(
                        before.tracks@[j],
                        #[trigger] self.tracks@[j],
                        lane_frames(out@, j, frames as int),
                    ),
                forall|j: int|
                    i <= j < before.tracks@.len() ==> #[trigger] self.tracks@[j]
                        == before.tracks@[j],
            decreases self.tracks.len() - i,
        {
            let ghost lanes = self.tracks@;
            let ghost held = out@;
            assert(lanes[i as int] == before.tracks@[i as int]);
            self.tracks[i].pop_frames(frames, out);
            proof {
                assert((i + 1) * frames == i * frames + frames) by (nonlinear_arith);
                assert(out@.skip(held.len() as int) =~= lane_frames(out@, i as int, frames as int));
                assert forall|j: int| 0 <= j < i implies lane_popped(
                    before.tracks@[j],
                    #[trigger] self.tracks@[j],
                    lane_frames(out@, j, frames as int),
                ) by {
                    assert(self.tracks@[j] == lanes[j]);
                    assert(j * frames + frames <= i * frames && 0 <= j * frames)
                        by (nonlinear_arith)
                        requires
                            0 <= j < i,
                            0 <= frames,
                    ;
                    assert(lane_frames(out@, j, frames as int) =~= lane_frames(
                        held,
                        j,
                        frames as int,
                    ));
                }
            }
            i = i + 1;
        }
    }

    /// Tells the other threads that the tape has run out. What the shared flag then
    /// holds is not said.
    fn mark_finished(&mut self)
        ensures
            *final(self) == (PlaybackSet { told: final(self).told, ..*old(self) }),
            final(self).told@ == (PlaybackTold { finished: true, ..old(self).told@ }),
    {
        self.shared.finished.store(true, Ordering::Relaxed);
        proof {
            self.told@ = PlaybackTold { finished: true, ..self.told@ };
        }
    }

    /// Tells the other threads how many frames were popped. What the shared position
    /// then holds is not said.
    pub fn advance(&mut self, frames: u64)
        ensures
            *final(self) == (PlaybackSet { told: final(self).told, ..*old(self) }),
            final(self).told@ == (PlaybackTold {
                frames: old(self).told@.frames + frames,
                ..old(self).told@
            }),
    {
        self.shared.position.fetch_add(frames, Ordering::Relaxed);
        proof {
            self.told@ = PlaybackTold { frames: self.told@.frames + frames, ..self.told@ };
        }
    }
}

proof fn lemma_lockstep_reads_its_lanes<G>(
    tracks: Seq<PlaybackTrack<G>>,
    seen: Seq<LaneSeen>,
    wider: Seq<LaneSeen>,
    frames: usize,
    n: int,
)
    requires
        0 <= n <= seen.len() <= wider.len(),
        forall|i: int| 0 <= i < n ==> seen[i] == #[trigger] wider[i],
    ensures
        lockstep(tracks, seen, frames, n) == lockstep(tracks, wider, frames, n),
    decreases n,
{
    if n > 0 {
        lemma_lockstep_reads_its_lanes(tracks, seen, wider, frames, n - 1);
    }
}

/// The lanes advance together: each of them is asked for as many frames as the
/// others, and one whose ring held them all has moved on by that many, with all of
/// its channels.
pub proof fn all_lanes_advance_together<G>(
    before: PlaybackTrack<G>,
    after: PlaybackTrack<G>,
    frames: Seq<(Single, Single)>,
)
    requires
        before.channels == 1 || before.channels == 2,
        lane_popped(before, after, frames),
    ensures
        after.rx.taken().len() + after.rx.misses() == before.rx.taken().len() + before.rx.misses()
            + frames.len() * before.channels,
        before.rx.taken().is_prefix_of(after.rx.taken()),
        frames.len() * before.channels <= before.rx.waiting() ==> after.rx.misses()
            == before.rx.misses(),
        after.rx.misses() == before.rx.misses() ==> {
            &&& after.rx.taken().len() == before.rx.taken().len() + frames.len() * before.channels
            &&& forall|f: int|
                0 <= f < frames.len() ==> {
                    let at = before.rx.taken().len() + f * before.channels;
                    &&& (#[trigger] frames[f]).0 == after.rx.taken()[at]
                    &&& frames[f].1 == after.rx.taken()[at + before.channels - 1]
                }
        },
{
    let popped = choose|popped: Seq<Option<Single>>|
        #[trigger] pops_made(before, after, frames, popped);
    assert(pops_made(before, after, frames, popped));
    assert(frames.len() * before.channels == popped.len());
    if after.rx.misses() == before.rx.misses() {
        lemma_all_came(popped);
        assert forall|f: int| 0 <= f < frames.len() implies {
            let at = before.rx.taken().len() + f * before.channels;
            &&& (#[trigger] frames[f]).0 == after.rx.taken()[at]
            &&& frames[f].1 == after.rx.taken()[at + before.channels - 1]
        } by {
            assert(frames[f] == frame_heard(popped, f, before.channels == 2));
            assert(popped[f * before.channels] is Some);
            assert(popped[f * before.channels + before.channels - 1] is Some);
        }
    }
}

proof fn lemma_one_more_drawn(popped: Seq<Option<Single>>, more: Option<Single>)
    ensures
        drawn(popped.push(more)) == match more {
            Some(value) => drawn(popped).push(value),
            None => drawn(popped),
        },
{
    assert(popped.push(more).drop_last() =~= popped);
}

proof fn lemma_all_came(popped: Seq<Option<Single>>)
    ensures
        drawn(popped).len() <= popped.len(),
        drawn(popped).len() == popped.len() ==> forall|i: int|
            0 <= i < popped.len() ==> (#[trigger] popped[i]) is Some && drawn(popped)[i]
                == popped[i]->0,
    decreases popped.len(),
{
    if popped.len() > 0 {
        lemma_all_came(popped.drop_last());
        if drawn(popped).len() == popped.len() {
            let rest = popped.drop_last();
            assert forall|i: int| 0 <= i < popped.len() implies (#[trigger] popped[i]) is Some
                && drawn(popped)[i] == popped[i]->0 by {
                if i < rest.len() {
                    assert(rest[i] is Some);
                }
            }
        }
    }
}

/// A lane that has not ended gives all that a chunk takes: looked at first and then
/// asked for as many frames as every lane leaves possible, it moves on by that many
/// frames, with all of their channels, and misses none.
pub proof fn a_live_lane_gives_whole_frames<G>(
    before: Seq<PlaybackTrack<G>>,
    looked: Seq<PlaybackTrack<G>>,
    after: Seq<PlaybackTrack<G>>,
    seen: Seq<LaneSeen>,
    frames: usize,
    out: Seq<(Single, Single)>,
    lane: int,
)
    requires
        forall|i: int|
            0 <= i < before.len() ==> (#[trigger] before[i]).channels == 1 || before[i].channels
                == 2,
        lanes_looked(before, looked, seen),
        pull_of(before, seen, frames) is Frames,
        0 <= lane < before.len(),
        !seen[lane].ended,
        out.len() == pull_of(before, seen, frames)->Frames_0,
        lane_popped(looked[lane], after[lane], out),
    ensures
        after[lane].rx.misses() == before[lane].rx.misses(),
        before[lane].rx.taken().is_prefix_of(after[lane].rx.taken()),
        after[lane].rx.taken().len() == before[lane].rx.taken().len() + out.len()
            * before[lane].channels,
{
    assert(lane_looked(before[lane], looked[lane], seen[lane]));
    a_chunk_fits_every_live_lane(before, seen, frames, before.len() as int);
    all_lanes_advance_together(looked[lane], after[lane], out);
}

/// Lanes stay aligned: every lane that has not ended holds as many whole
/// frames as the chunk takes, and the chunk takes no more than was asked for.
pub proof fn a_chunk_fits_every_live_lane<G>(
    tracks: Seq<PlaybackTrack<G>>,
    seen: Seq<LaneSeen>,
    frames: usize,
    n: int,
)
    requires
        0 <= n <= tracks.len(),
        tracks.len() == seen.len(),
        forall|i: int| 0 <= i < tracks.len() ==> (#[trigger] tracks[i]).channels > 0,
    ensures
        lockstep(tracks, seen, frames, n) <= frames,
        forall|i: int|
            0 <= i < n && !(#[trigger] seen[i]).ended ==> lockstep(tracks, seen, frames, n)
                * tracks[i].channels <= seen[i].slots,
    decreases n,
{
    if n > 0 {
        a_chunk_fits_every_live_lane(tracks, seen, frames, n - 1);
        let before = lockstep(tracks, seen, frames, n - 1);
        let after = lockstep(tracks, seen, frames, n);
        assert forall|i: int| 0 <= i < n && !(#[trigger] seen[i]).ended implies after
            * tracks[i].channels <= seen[i].slots by {
            let width = tracks[i].channels as int;
            let slots = seen[i].slots as int;
            if i == n - 1 {
                let whole = slots / width;
                assert(after * width <= slots) by (nonlinear_arith)
                    requires
                        width > 0,
                        whole == slots / width,
                        after <= whole,
                ;
            } else {
                assert(after * width <= before * width) by (nonlinear_arith)
                    requires
                        after <= before,
                        width > 0,
                ;
            }
        }
    }
}

/// With a solo anywhere, exactly the soloed and unmuted lanes are open.
pub proof fn a_solo_isolates_its_lanes<G>(tracks: Seq<PlaybackTrack<G>>, has_master: bool, i: int)
    requires
        0 <= i < tracks.len(),
        any_solo(tracks),
    ensures
        retargeted(tracks, has_master)[i].gate.open <==> tracks[i].solo && !tracks[i].mute,
{
}

} // verus!
