//! The take writer: what becomes of the samples of a track, and of the tracks of
//! a take.
//!
//! Samples that a full ring lost become silence, so that every track of a take
//! stays aligned. How many they were is written down, and marks the take as
//! damaged.

use vstd::prelude::*;

use crate::engine::ring::tell_the_end;
use crate::engine::ring::RingRx;
use crate::engine::ring::ENDLESS;
use crate::engine::ring::Tally;
use crate::project::format::RecordFormat;
use crate::project::notes::MidiTrackReport;
use crate::project::peaks::extent;
use crate::project::peaks::PeakAccum;
use crate::project::peaks::PEAK_SAMPLES_PER_BIN;
use crate::single::Single;

verus! {

/// Silence.
pub open spec fn silence() -> Single {
    Single { bits: 0 }
}

/// What to record as one track.
#[derive(Debug)]
pub struct TakeTrackSpec {
    /// The file's name within the take directory.
    pub file: String,
    pub channels: u16,
    /// The strip that the track taps; none for the master mix.
    pub strip_id: Option<u32>,
}

/// A track, and the ring that its samples come through.
pub struct TrackSink {
    pub spec: TakeTrackSpec,
    pub rx: RingRx<Single>,
    pub dropped: Tally,
}

/// Peak bins of one track that were closed since the last batch.
#[derive(Debug)]
pub struct PeakBatch {
    /// Which track of the take.
    pub track: usize,
    pub start_bin: u64,
    /// The lowest and the highest of each bin in turn.
    pub bins: Vec<i16>,
}

/// One track of a take's manifest.
#[derive(Debug)]
pub struct TrackManifest {
    pub file: String,
    pub channels: u16,
    pub frames: u64,
    pub dropped_samples: u64,
    pub strip_id: Option<u32>,
}

/// A take's manifest.
#[derive(Debug)]
pub struct TakeManifest {
    pub schema_version: u32,
    pub started_at_unix: u64,
    pub sample_rate: u32,
    pub format: RecordFormat,
    pub damaged: bool,
    pub tracks: Vec<TrackManifest>,
    pub midi_tracks: Vec<MidiTrackReport>,
}

/// A track that is being written.
pub struct ActiveTrack {
    pub spec: TakeTrackSpec,
    pub rx: RingRx<Single>,
    pub dropped: Tally,
    pub peaks: PeakAccum,
    /// Bins that were closed and not handed out yet.
    pub pending_bins: Vec<i16>,
    pub bins_emitted: u64,
    pub written_samples: u64,
    pub silenced_samples: u64,
    pub write_failed: bool,
}

/// Samples, then so much silence.
pub open spec fn repaired(samples: Seq<Single>, lost: int) -> Seq<Single> {
    samples + Seq::new(
        if lost > 0 {
            lost as nat
        } else {
            0
        },
        |i: int| silence(),
    )
}

impl ActiveTrack {
    /// The bins are those of the track's channels, and pairs stay together.
    pub open spec fn wf(&self) -> bool {
        &&& self.peaks.wf()
        &&& self.peaks.samples_per_bin == PEAK_SAMPLES_PER_BIN * self.spec.channels
        &&& self.pending_bins@.len() % 2 == 0
    }

    /// A track of which nothing is written.
    pub fn new(sink: TrackSink) -> (track: ActiveTrack)
        ensures
            track.wf(),
            track.spec == sink.spec,
            track.rx == sink.rx,
            track.dropped == sink.dropped,
            track.peaks.open() == Seq::<Single>::empty(),
            track.pending_bins@ == Seq::<i16>::empty(),
            track.bins_emitted == 0,
            track.written_samples == 0,
            track.silenced_samples == 0,
            !track.write_failed,
    {
        ActiveTrack {
            peaks: PeakAccum::new(sink.spec.channels),
            spec: sink.spec,
            rx: sink.rx,
            dropped: sink.dropped,
            pending_bins: Vec::new(),
            bins_emitted: 0,
            written_samples: 0,
            silenced_samples: 0,
            write_failed: false,
        }
    }

    /// Adds silence to what was taken out of the ring, for as many samples as the
    /// ring lost since the last time. `lost` is how many it lost in all.
    pub fn repair(&mut self, taken: Vec<Single>, lost: u64) -> (samples: Vec<Single>)
        ensures
            samples@ == repaired(taken@, lost - old(self).silenced_samples),
            *final(self) == (ActiveTrack {
                silenced_samples: if lost > old(self).silenced_samples {
                    lost
                } else {
                    old(self).silenced_samples
                },
                ..*old(self)
            }),
    {
        let ghost before = *self;
        let ghost popped = taken@;
        let mut samples: Vec<Single> = taken;
        let mut silenced: u64 = self.silenced_samples;
        assert(samples@ =~= repaired(popped, 0));
        while silenced < lost
            invariant
                before.silenced_samples <= silenced,
                silenced <= lost || silenced == before.silenced_samples,
                samples@ == repaired(popped, silenced - before.silenced_samples),
            decreases lost - silenced,
        {
            samples.push(Single { bits: 0 });
            silenced = silenced + 1;
            assert(samples@ =~= repaired(popped, silenced - before.silenced_samples));
        }
        assert(samples@ =~= repaired(popped, lost - before.silenced_samples));
        self.silenced_samples = silenced;
        samples
    }

    /// Takes out of the ring what is in it, and adds silence for what it lost
    /// since the last time.
    pub fn drain(&mut self) -> (samples: Vec<Single>)
        ensures
            ({
                let popped = final(self).rx.taken().skip(old(self).rx.taken().len() as int);
                let lost = final(self).dropped.reads().last();
                &&& old(self).rx.taken().is_prefix_of(final(self).rx.taken())
                &&& popped.len() < ENDLESS ==> final(self).rx.misses() == old(self).rx.misses() + 1
                &&& final(self).dropped.reads() == old(self).dropped.reads().push(lost)
                &&& final(self).dropped.counted() == old(self).dropped.counted()
                &&& final(self).rx.looks() == old(self).rx.looks()
                &&& final(self).rx.origin() == old(self).rx.origin()
                &&& samples@ == repaired(popped, lost - old(self).silenced_samples)
                &&& final(self).silenced_samples == if lost > old(self).silenced_samples {
                    lost
                } else {
                    old(self).silenced_samples
                }
            }),
            *final(self) == (ActiveTrack {
                rx: final(self).rx,
                dropped: final(self).dropped,
                silenced_samples: final(self).silenced_samples,
                ..*old(self)
            }),
    {
        let ghost before = *self;
        let mut taken: Vec<Single> = Vec::new();
        let mut left: u64 = ENDLESS;
        let mut dry: bool = false;
        assert(self.rx.taken() =~= before.rx.taken() + taken@);
        while left > 0 && !dry
            invariant
                self.rx.taken() == before.rx.taken() + taken@,
                left + taken@.len() + (if dry {
                    1int
                } else {
                    0int
                }) == ENDLESS,
                self.rx.misses() == before.rx.misses() + if dry {
                    1nat
                } else {
                    0nat
                },
                self.rx.looks() == before.rx.looks(),
                self.rx.origin() == before.rx.origin(),
                *self == (ActiveTrack { rx: self.rx, ..before }),
            decreases left,
        {
            match self.rx.pop() {
                Some(sample) => {
                    taken.push(sample);
                    assert(self.rx.taken() =~= before.rx.taken() + taken@);
                },
                None => {
                    dry = true;
                },
            }
            left = left - 1;
        }
        let ghost popped = taken@;
        let lost: u64 = self.dropped.read();
        let samples: Vec<Single> = self.repair(taken, lost);
        assert(self.rx.taken().skip(before.rx.taken().len() as int) =~= popped);
        samples
    }

    /// Counts a sample that was handed to the encoder; `landed` says whether it
    /// reached the disk. The bin that it closed, where it closed one.
    ///
    /// Every sample, real or silence, goes into the file and the peaks together,
    /// so that the waveform never drifts from the sound.
    pub fn write(&mut self, sample: Single, landed: bool) -> (bin: Option<(Single, Single)>)
        requires
            old(self).wf(),
            old(self).written_samples < u64::MAX,
            old(self).peaks.filled < u32::MAX,
        ensures
            final(self).wf(),
            final(self).written_samples == old(self).written_samples + 1,
            final(self).write_failed == (old(self).write_failed || !landed),
            ({
                let open = old(self).peaks.open().push(sample);
                if open.len() == old(self).peaks.samples_per_bin {
                    bin == Some(extent(open)) && final(self).peaks.open() == Seq::<Single>::empty()
                } else {
                    bin is None && final(self).peaks.open() == open
                }
            }),
            final(self).spec == old(self).spec,
            final(self).rx == old(self).rx,
            final(self).dropped == old(self).dropped,
            final(self).pending_bins == old(self).pending_bins,
            final(self).bins_emitted == old(self).bins_emitted,
            final(self).silenced_samples == old(self).silenced_samples,
    {
        if !landed {
            self.write_failed = true;
        }
        self.written_samples = self.written_samples + 1;
        self.peaks.push(sample)
    }

    /// Keeps a closed bin for the next batch.
    pub fn close_bin(&mut self, pair: (i16, i16))
        requires
            old(self).wf(),
        ensures
            final(self).wf(),
            final(self).pending_bins@ == old(self).pending_bins@.push(pair.0).push(pair.1),
            final(self).spec == old(self).spec,
            final(self).rx == old(self).rx,
            final(self).dropped == old(self).dropped,
            final(self).peaks == old(self).peaks,
            final(self).bins_emitted == old(self).bins_emitted,
            final(self).written_samples == old(self).written_samples,
            final(self).silenced_samples == old(self).silenced_samples,
            final(self).write_failed == old(self).write_failed,
    {
        self.pending_bins.push(pair.0);
        self.pending_bins.push(pair.1);
    }

    /// The bins that were closed since the last batch, if anybody listens and
    /// there are any. Where nobody listens they are dropped.
    pub fn send_bins(&mut self, index: usize, tapped: bool) -> (batch: Option<PeakBatch>)
        requires
            old(self).wf(),
            old(self).bins_emitted + old(self).pending_bins@.len() <= u64::MAX,
        ensures
            final(self).wf(),
            final(self).pending_bins@ == Seq::<i16>::empty(),
            match batch {
                Some(sent) => tapped && old(self).pending_bins@.len() > 0 && sent.track == index
                    && sent.start_bin == old(self).bins_emitted && sent.bins@ == old(
                    self,
                ).pending_bins@ && final(self).bins_emitted == old(self).bins_emitted + old(
                    self,
                ).pending_bins@.len() / 2,
                None => (!tapped || old(self).pending_bins@.len() == 0) && final(self).bins_emitted
                    == old(self).bins_emitted,
            },
            final(self).spec == old(self).spec,
            final(self).rx == old(self).rx,
            final(self).dropped == old(self).dropped,
            final(self).peaks == old(self).peaks,
            final(self).written_samples == old(self).written_samples,
            final(self).silenced_samples == old(self).silenced_samples,
            final(self).write_failed == old(self).write_failed,
    {
        let mut bins: Vec<i16> = Vec::new();
        std::mem::swap(&mut bins, &mut self.pending_bins);
        if !tapped || bins.len() == 0 {
            return None;
        }
        let start_bin: u64 = self.bins_emitted;
        let count: u64 = (bins.len() / 2) as u64;
        self.bins_emitted = start_bin + count;
        Some(PeakBatch { track: index, start_bin, bins })
    }

    /// Whether the take is over for this track: the writing end of its ring is
    /// gone and nothing is left in it.
    pub fn is_over(&mut self) -> (over: bool)
        ensures
            *final(self) == (ActiveTrack { rx: final(self).rx, ..*old(self) }),
            final(self).rx.taken() == old(self).rx.taken(),
            final(self).rx.misses() == old(self).rx.misses(),
            final(self).rx.origin() == old(self).rx.origin(),
            old(self).rx.looks().is_prefix_of(final(self).rx.looks()),
            tell_the_end(
                final(self).rx.looks().skip(old(self).rx.looks().len() as int),
                over,
            ),
    {
        self.rx.has_ended()
    }

    /// The bin that is still open at the end of the take.
    pub fn flush(&mut self) -> (bin: Option<(Single, Single)>)
        requires
            old(self).wf(),
        ensures
            final(self).wf(),
            final(self).peaks.open() == Seq::<Single>::empty(),
            bin == if old(self).peaks.open().len() > 0 {
                Some(extent(old(self).peaks.open()))
            } else {
                None::<(Single, Single)>
            },
            final(self).spec == old(self).spec,
            final(self).rx == old(self).rx,
            final(self).dropped == old(self).dropped,
            final(self).pending_bins == old(self).pending_bins,
            final(self).bins_emitted == old(self).bins_emitted,
            final(self).written_samples == old(self).written_samples,
            final(self).silenced_samples == old(self).silenced_samples,
            final(self).write_failed == old(self).write_failed,
    {
        self.peaks.flush()
    }

    /// What the track became, and whether anything of it failed to reach the
    /// disk.
    pub fn finish(self, finalized: bool) -> (outcome: (TrackManifest, bool))
        requires
            self.spec.channels > 0,
        ensures
            outcome.0.file == self.spec.file,
            outcome.0.channels == self.spec.channels,
            outcome.0.frames == self.written_samples as int / self.spec.channels as int,
            outcome.0.dropped_samples == self.silenced_samples,
            outcome.0.strip_id == self.spec.strip_id,
            outcome.1 == (self.write_failed || !finalized),
    {
        let frames: u64 = self.written_samples / self.spec.channels as u64;
        let failed: bool = self.write_failed || !finalized;
        (
            TrackManifest {
                file: self.spec.file,
                channels: self.spec.channels,
                frames,
                dropped_samples: self.silenced_samples,
                strip_id: self.spec.strip_id,
            },
            failed,
        )
    }
}

/// How the writing of a track ended.
#[derive(Debug)]
pub enum TrackOutcome {
    /// It came to an end; the flag says whether a write failed.
    Finished(TrackManifest, bool),
    /// Its thread died.
    Lost(TakeTrackSpec),
}

/// Whether a track is what was played.
pub open spec fn is_damaged(outcome: TrackOutcome) -> bool {
    match outcome {
        TrackOutcome::Finished(manifest, failed) => manifest.dropped_samples > 0 || failed,
        TrackOutcome::Lost(_) => true,
    }
}

/// How a track stands in the manifest. One whose thread died is there, empty.
pub open spec fn entry_of(outcome: TrackOutcome) -> TrackManifest {
    match outcome {
        TrackOutcome::Finished(manifest, _) => manifest,
        TrackOutcome::Lost(spec) => TrackManifest {
            file: spec.file,
            channels: spec.channels,
            frames: 0,
            dropped_samples: 0,
            strip_id: spec.strip_id,
        },
    }
}

/// The manifest of a finished take. Sidecars of notes never mark it as damaged:
/// that word says that the sound is not what was played.
pub fn take_manifest(
    started_at_unix: u64,
    sample_rate: u32,
    format: RecordFormat,
    outcomes: Vec<TrackOutcome>,
    midi_tracks: Vec<MidiTrackReport>,
) -> (manifest: TakeManifest)
    ensures
        manifest.schema_version == 1,
        manifest.started_at_unix == started_at_unix,
        manifest.sample_rate == sample_rate,
        manifest.format == format,
        manifest.damaged == exists|i: int|
            0 <= i < outcomes@.len() && is_damaged(#[trigger] outcomes@[i]),
        manifest.tracks@ == outcomes@.map_values(|outcome: TrackOutcome| entry_of(outcome)),
        manifest.midi_tracks == midi_tracks,
{
    let ghost all = outcomes@;
    let ghost entries = all.map_values(|outcome: TrackOutcome| entry_of(outcome));
    let mut rest: Vec<TrackOutcome> = outcomes;
    let mut flipped: Vec<TrackManifest> = Vec::new();
    let mut damaged: bool = false;
    assert(flipped@ =~= entries.skip(rest@.len() as int).reverse());
    assert(rest@ =~= all.take(rest@.len() as int));
    while rest.len() > 0
        invariant
            rest@.len() <= all.len(),
            rest@ == all.take(rest@.len() as int),
            entries == all.map_values(|outcome: TrackOutcome| entry_of(outcome)),
            flipped@ == entries.skip(rest@.len() as int).reverse(),
            damaged == exists|i: int|
                rest@.len() <= i < all.len() && is_damaged(#[trigger] all[i]),
        decreases rest.len(),
    {
        let ghost n = rest@.len() as int;
        let ghost earlier = damaged;
        if let Some(outcome) = rest.pop() {
            assert(outcome == all[n - 1]);
            assert(rest@ =~= all.take(n - 1));
            match outcome {
                TrackOutcome::Finished(manifest, failed) => {
                    damaged = damaged || manifest.dropped_samples > 0 || failed;
                    flipped.push(manifest);
                },
                TrackOutcome::Lost(spec) => {
                    damaged = true;
                    flipped.push(
                        TrackManifest {
                            file: spec.file,
                            channels: spec.channels,
                            frames: 0,
                            dropped_samples: 0,
                            strip_id: spec.strip_id,
                        },
                    );
                },
            }
            assert(flipped@.last() == entries[n - 1]);
            assert(flipped@ =~= entries.skip(n - 1).reverse());
            assert(damaged == (earlier || is_damaged(all[n - 1])));
            assert(damaged ==> exists|i: int|
                n - 1 <= i < all.len() && is_damaged(#[trigger] all[i]));
        }
    }
    let mut tracks: Vec<TrackManifest> = Vec::new();
    assert(flipped@ =~= entries.reverse());
    assert(entries.take(0) =~= tracks@);
    while flipped.len() > 0
        invariant
            flipped@.len() + tracks@.len() == entries.len(),
            tracks@ == entries.take(tracks@.len() as int),
            flipped@ == entries.skip(tracks@.len() as int).reverse(),
        decreases flipped.len(),
    {
        let ghost n = tracks@.len() as int;
        if let Some(entry) = flipped.pop() {
            assert(entry == entries[n]);
            tracks.push(entry);
            assert(tracks@ =~= entries.take(n + 1));
            assert(flipped@ =~= entries.skip(n + 1).reverse());
        }
    }
    assert(tracks@ =~= entries);
    TakeManifest {
        schema_version: 1,
        started_at_unix,
        sample_rate,
        format,
        damaged,
        tracks,
        midi_tracks,
    }
}

/// Silence makes up for what was lost: a track is as long as if nothing had
/// been.
pub proof fn silence_keeps_a_track_aligned(recorded: Seq<Single>, lost: nat)
    ensures
        repaired(recorded, lost as int).len() == recorded.len() + lost,
        repaired(recorded, lost as int).take(recorded.len() as int) == recorded,
        forall|i: int|
            recorded.len() <= i < recorded.len() + lost ==> #[trigger] repaired(
                recorded,
                lost as int,
            )[i] == silence(),
{
    assert(repaired(recorded, lost as int).take(recorded.len() as int) =~= recorded);
}

} // verus!
