//! Recording taps: the audio thread sends samples down one ring per track, and
//! counts what a full ring loses.

use vstd::prelude::*;

use crate::console::instrument::CapturedMidi;
use crate::engine::frame::Stereo;
use crate::engine::ring::one_by_one;
use crate::engine::ring::Origin;
use crate::engine::ring::RingTx;
use crate::engine::ring::Tally;
use crate::single::Single;

verus! {

/// Seconds of sound that one track's ring holds.
pub const RECORD_RING_SECS: usize = 8;

/// Events that a take's MIDI capture holds before the writer drains it.
pub const MIDI_CAPTURE_CAPACITY: usize = 16_384;

/// One track of a take.
pub struct RecordTrack {
    tx: RingTx<Single>,
    /// Samples that a full ring lost.
    dropped: Tally,
    offered: Ghost<Seq<Single>>,
}

impl RecordTrack {
    /// A track that records into a ring and counts what it loses.
    pub fn new(tx: RingTx<Single>, dropped: Tally) -> (track: RecordTrack)
        ensures
            track.recorded() == tx.sent(),
            track.tried() == tx.offered(),
            track.origin() == tx.origin(),
            track.lost() == dropped.counted(),
            track.offered() == Seq::<Single>::empty(),
            tx.sent().len() == 0 && dropped.counted() == 0 ==> track.accounted(),
    {
        RecordTrack { tx, dropped, offered: Ghost(Seq::empty()) }
    }

    /// What went into the ring, in order.
    pub closed spec fn recorded(&self) -> Seq<Single> {
        self.tx.sent()
    }

    /// How many samples were lost.
    pub closed spec fn lost(&self) -> nat {
        self.dropped.counted()
    }

    /// What was offered to the ring, offer by offer.
    pub closed spec fn tried(&self) -> Seq<Seq<Single>> {
        self.tx.offered()
    }

    /// The ring, where it was made by this library.
    pub closed spec fn origin(&self) -> Option<Origin> {
        self.tx.origin()
    }

    /// Every sample that the track was given, in order.
    pub closed spec fn offered(&self) -> Seq<Single> {
        self.offered@
    }

    /// Every sample that the track was given is in the ring or counted as lost.
    pub open spec fn accounted(&self) -> bool {
        self.offered().len() == self.recorded().len() + self.lost()
    }

    /// Records a sample, or counts it as lost where the ring is full.
    pub fn push(&mut self, sample: Single)
        ensures
            final(self).offered() == old(self).offered().push(sample),
            final(self).tried() == old(self).tried().push(seq![sample]),
            final(self).origin() == old(self).origin(),
            old(self).accounted() ==> final(self).accounted(),
            ({
                ||| final(self).recorded() == old(self).recorded().push(sample)
                    && final(self).lost() == old(self).lost()
                ||| final(self).recorded() == old(self).recorded() && final(self).lost() == old(
                    self,
                ).lost() + 1
            }),
    {
        if self.tx.push(sample).is_err() {
            self.dropped.bump();
        }
        proof {
            self.offered@ = self.offered@.push(sample);
        }
    }
}

/// The MIDI half of a take.
pub struct MidiCapture {
    tx: RingTx<CapturedMidi>,
    /// Events that a full ring lost.
    dropped: Tally,
    offered: Ghost<Seq<CapturedMidi>>,
    /// The engine's sample position at which the take started.
    pub start_sample: u64,
}

impl MidiCapture {
    /// A capture that records into a ring and counts what it loses.
    pub fn new(tx: RingTx<CapturedMidi>, dropped: Tally) -> (capture: MidiCapture)
        ensures
            capture.recorded() == tx.sent(),
            capture.tried() == tx.offered(),
            capture.origin() == tx.origin(),
            capture.lost() == dropped.counted(),
            capture.offered() == Seq::<CapturedMidi>::empty(),
            capture.start() == 0,
    {
        MidiCapture { tx, dropped, offered: Ghost(Seq::empty()), start_sample: 0 }
    }

    /// What went into the ring, in order.
    pub closed spec fn recorded(&self) -> Seq<CapturedMidi> {
        self.tx.sent()
    }

    /// How many events were lost.
    pub closed spec fn lost(&self) -> nat {
        self.dropped.counted()
    }

    /// What was offered to the ring, offer by offer.
    pub closed spec fn tried(&self) -> Seq<Seq<CapturedMidi>> {
        self.tx.offered()
    }

    /// The ring, where it was made by this library.
    pub closed spec fn origin(&self) -> Option<Origin> {
        self.tx.origin()
    }

    /// Every event that the capture was given, in order.
    pub closed spec fn offered(&self) -> Seq<CapturedMidi> {
        self.offered@
    }

    /// The engine's sample position at which the take started.
    pub closed spec fn start(&self) -> u64 {
        self.start_sample
    }

    /// Stamps the position at which the take starts.
    pub fn start_at(&mut self, sample_frame: u64)
        ensures
            final(self).start() == sample_frame,
            final(self).offered() == old(self).offered(),
            final(self).recorded() == old(self).recorded(),
            final(self).tried() == old(self).tried(),
            final(self).origin() == old(self).origin(),
            final(self).lost() == old(self).lost(),
    {
        self.start_sample = sample_frame;
    }

    /// Records an applied event, or counts it as lost where the ring is full.
    pub fn push(&mut self, event: CapturedMidi)
        ensures
            final(self).offered() == old(self).offered().push(event),
            final(self).tried() == old(self).tried().push(seq![event]),
            final(self).origin() == old(self).origin(),
            ({
                ||| final(self).recorded() == old(self).recorded().push(event)
                    && final(self).lost() == old(self).lost()
                ||| final(self).recorded() == old(self).recorded() && final(self).lost() == old(
                    self,
                ).lost() + 1
            }),
            final(self).start() == old(self).start(),
    {
        if self.tx.push(event).is_err() {
            self.dropped.bump();
        }
        proof {
            self.offered@ = self.offered@.push(event);
        }
    }

    /// Where in the take an engine position lies. Positions in front of the
    /// take's start lie at its start.
    pub fn elapsed(&self, sample_frame: u64) -> (at: u64)
        ensures
            at == if sample_frame > self.start() {
                sample_frame - self.start()
            } else {
                0
            },
    {
        sample_frame.saturating_sub(self.start_sample)
    }
}

/// All that the audio thread needs to tap a take.
pub struct RecordSet {
    /// For each strip of the compiled graph, its track.
    pub strip_tracks: Vec<Option<u16>>,
    /// The track of the stereo mix, interleaved.
    pub master_track: Option<u16>,
    pub tracks: Vec<RecordTrack>,
    /// The notes, beside the sound.
    pub midi: Option<Box<MidiCapture>>,
}

impl RecordSet {
    /// Every tap names a track that is there.
    pub open spec fn wf(&self) -> bool {
        &&& forall|i: int|
            0 <= i < self.strip_tracks@.len() ==> ((#[trigger] self.strip_tracks@[i]) matches Some(
                t,
            ) ==> t < self.tracks@.len())
        &&& self.master_track matches Some(t) ==> t < self.tracks@.len()
    }
}

/// Whether a track was given these samples more, and nothing of it was lost
/// uncounted.
pub open spec fn track_grew(before: RecordTrack, after: RecordTrack, samples: Seq<Single>) -> bool {
    &&& after.offered() == before.offered() + samples
    &&& after.tried() == before.tried() + one_by_one(samples)
    &&& after.origin() == before.origin()
    &&& before.accounted() ==> after.accounted()
}

/// Whether a set differs from an earlier one in nothing but that one track, if there
/// is one, was given these samples more.
pub open spec fn set_grew(
    before: RecordSet,
    after: RecordSet,
    track: Option<u16>,
    samples: Seq<Single>,
) -> bool {
    &&& after.strip_tracks == before.strip_tracks
    &&& after.master_track == before.master_track
    &&& after.midi == before.midi
    &&& after.tracks@.len() == before.tracks@.len()
    &&& forall|t: int|
        0 <= t < before.tracks@.len() ==> if track is Some && track->0 == t {
            track_grew(before.tracks@[t], #[trigger] after.tracks@[t], samples)
        } else {
            after.tracks@[t] == before.tracks@[t]
        }
}

impl RecordSet {
    /// Whether every tap names a track that is there.
    pub fn is_wired(&self) -> (wired: bool)
        ensures
            wired == self.wf(),
    {
        let count: usize = self.tracks.len();
        let mut i: usize = 0;
        while i < self.strip_tracks.len()
            invariant
                i <= self.strip_tracks@.len(),
                count == self.tracks@.len(),
                forall|j: int|
                    0 <= j < i ==> ((#[trigger] self.strip_tracks@[j]) matches Some(t) ==> t
                        < count),
            decreases self.strip_tracks.len() - i,
        {
            if let Some(track) = self.strip_tracks[i] {
                if track as usize >= count {
                    assert(self.strip_tracks@[i as int] is Some);
                    return false;
                }
            }
            i = i + 1;
        }
        match self.master_track {
            Some(track) => (track as usize) < count,
            None => true,
        }
    }

    /// Records a sample of a strip, as it is in front of its mute and fader. A strip
    /// without a track is not recorded.
    pub fn record_strip(&mut self, strip: usize, pre: Single)
        requires
            old(self).wf(),
        ensures
            final(self).wf(),
            set_grew(
                *old(self),
                *final(self),
                if strip < old(self).strip_tracks@.len() {
                    old(self).strip_tracks@[strip as int]
                } else {
                    None
                },
                seq![pre],
            ),
    {
        if strip >= self.strip_tracks.len() {
            return;
        }
        if let Some(track) = self.strip_tracks[strip] {
            let ghost before = self.tracks@;
            self.tracks[track as usize].push(pre);
            assert(self.tracks@[track as int].offered() =~= before[track as int].offered() + seq![
                pre,
            ]);
            assert(self.tracks@[track as int].tried() =~= before[track as int].tried() + one_by_one(
                seq![pre],
            ));
        }
    }

    /// Records a frame of the mix, as it is behind the master fader: left, then
    /// right.
    pub fn record_mix(&mut self, mix: Stereo)
        requires
            old(self).wf(),
        ensures
            final(self).wf(),
            set_grew(*old(self), *final(self), old(self).master_track, seq![mix.l, mix.r]),
    {
        if let Some(track) = self.master_track {
            let ghost before = self.tracks@;
            self.tracks[track as usize].push(mix.l);
            self.tracks[track as usize].push(mix.r);
            assert(self.tracks@[track as int].offered() =~= before[track as int].offered() + seq![
                mix.l,
                mix.r,
            ]);
            assert(self.tracks@[track as int].tried() =~= before[track as int].tried() + one_by_one(
                seq![mix.l, mix.r],
            ));
        }
    }
}

} // verus!
