//! One MIDI file per instrument that was played into a take.

use vstd::prelude::*;
use vstd::string::StringExecFns;
use vstd::utf8::encode_utf8;

use crate::console::instrument::CapturedMidi;
use crate::engine::ring::RingRx;
use crate::engine::ring::ENDLESS;
use crate::engine::ring::Tally;
use crate::project::midi::build_smf;
use crate::project::midi::can_write;
use crate::project::midi::gaps_fit;
use crate::project::midi::smf;
use crate::project::midi::VLQ_LIMIT;
use crate::project::naming::a_padded_number_reads_back;
use crate::project::naming::file_slug;
use crate::project::naming::padded;
use crate::project::naming::push_padded;
use crate::project::naming::slug;
use crate::seqs::lemma_filter_none;
use crate::seqs::lemma_filter_step;

verus! {

/// The captured notes of a take, on their way to disk.
pub struct MidiSink {
    pub rx: RingRx<CapturedMidi>,
    pub dropped: Tally,
    /// Each recorded rack slot, and the name to write for it.
    pub voices: Vec<(u16, String)>,
}

/// What a written sidecar became.
#[derive(Debug, Clone, PartialEq, Eq)]
pub struct MidiTrackReport {
    pub file: String,
    pub name: String,
    pub events: u64,
    pub dropped_events: u64,
}

/// A sidecar to write.
#[derive(Debug)]
pub struct Sidecar {
    pub report: MidiTrackReport,
    pub bytes: Vec<u8>,
}

/// What a sidecar holds.
pub ghost struct SidecarView {
    pub file: Seq<char>,
    pub name: Seq<char>,
    pub events: int,
    pub dropped_events: int,
    pub bytes: Seq<u8>,
}

impl View for Sidecar {
    type V = SidecarView;

    open spec fn view(&self) -> SidecarView {
        SidecarView {
            file: self.report.file@,
            name: self.report.name@,
            events: self.report.events as int,
            dropped_events: self.report.dropped_events as int,
            bytes: self.bytes@,
        }
    }
}

/// Whether an event came from a slot.
pub open spec fn from_slot(slot: u16) -> spec_fn(CapturedMidi) -> bool {
    |event: CapturedMidi| event.instrument == slot
}

/// What a slot played, in order.
pub open spec fn played(events: Seq<CapturedMidi>, slot: u16) -> Seq<CapturedMidi> {
    events.filter(from_slot(slot))
}

/// Whether a voice was played and is the first of its slot.
pub open spec fn sounds(voices: Seq<(u16, String)>, events: Seq<CapturedMidi>, i: int) -> bool {
    &&& played(events, voices[i].0).len() > 0
    &&& forall|k: int| 0 <= k < i ==> (#[trigger] voices[k]).0 != voices[i].0
}

/// The name of a voice's file.
pub open spec fn sidecar_name(slot: u16, name: Seq<char>) -> Seq<char> {
    "inst"@ + padded((slot + 1) as nat, 2) + "-"@ + slug(name) + ".mid"@
}

/// The sidecar of a voice.
pub open spec fn sidecar_of(
    voice: (u16, String),
    events: Seq<CapturedMidi>,
    sample_rate: int,
    dropped: u64,
) -> SidecarView {
    SidecarView {
        file: sidecar_name(voice.0, voice.1@),
        name: voice.1@,
        events: played(events, voice.0).len() as int,
        dropped_events: dropped as int,
        bytes: smf(voice.1@, sample_rate, played(events, voice.0)),
    }
}

/// The sidecars of the first `n` voices. A voice that nobody played has none.
pub open spec fn sidecars_of(
    voices: Seq<(u16, String)>,
    events: Seq<CapturedMidi>,
    sample_rate: int,
    dropped: u64,
    n: int,
) -> Seq<SidecarView>
    decreases n,
{
    if n <= 0 {
        Seq::empty()
    } else {
        let earlier = sidecars_of(voices, events, sample_rate, dropped, n - 1);
        if sounds(voices, events, n - 1) {
            earlier.push(sidecar_of(voices[n - 1], events, sample_rate, dropped))
        } else {
            earlier
        }
    }
}

/// Whether the notes of a voice can be written: its number, its name and the
/// distances between its events.
pub open spec fn voice_fits(
    voice: (u16, String),
    events: Seq<CapturedMidi>,
    sample_rate: int,
) -> bool {
    &&& voice.0 < u16::MAX
    &&& encode_utf8(voice.1@).len() < VLQ_LIMIT
    &&& gaps_fit(sample_rate, played(events, voice.0))
}

/// Whether every voice that was played can be written.
pub open spec fn voices_fit(
    voices: Seq<(u16, String)>,
    events: Seq<CapturedMidi>,
    sample_rate: int,
) -> bool {
    forall|i: int|
        0 <= i < voices.len() && #[trigger] sounds(voices, events, i) ==> voice_fits(
            voices[i],
            events,
            sample_rate,
        )
}

/// What a slot played, in order.
fn notes_of(events: &Vec<CapturedMidi>, slot: u16) -> (notes: Vec<CapturedMidi>)
    ensures
        notes@ == played(events@, slot),
{
    let mut notes: Vec<CapturedMidi> = Vec::new();
    let mut i: usize = 0;
    proof {
        lemma_filter_none(events@, from_slot(slot));
    }
    while i < events.len()
        invariant
            i <= events@.len(),
            notes@ == events@.take(i as int).filter(from_slot(slot)),
        decreases events.len() - i,
    {
        proof {
            lemma_filter_step(events@, from_slot(slot), i as int);
        }
        let event: CapturedMidi = events[i];
        if event.instrument == slot {
            notes.push(event);
        }
        i = i + 1;
    }
    assert(events@.take(events@.len() as int) =~= events@);
    notes
}

/// Whether a voice is the first of its slot.
fn is_first(voices: &Vec<(u16, String)>, i: usize) -> (first: bool)
    requires
        i < voices@.len(),
    ensures
        first == forall|k: int| 0 <= k < i ==> (#[trigger] voices@[k]).0 != voices@[i as int].0,
{
    let mut k: usize = 0;
    while k < i
        invariant
            k <= i < voices@.len(),
            forall|j: int| 0 <= j < k ==> (#[trigger] voices@[j]).0 != voices@[i as int].0,
        decreases i - k,
    {
        if voices[k].0 == voices[i].0 {
            assert(voices@[k as int].0 == voices@[i as int].0);
            return false;
        }
        k = k + 1;
    }
    true
}

/// Whether every voice that was played can be written.
pub fn can_write_voices(
    sample_rate: u32,
    voices: &Vec<(u16, String)>,
    events: &Vec<CapturedMidi>,
) -> (fit: bool)
    ensures
        fit == voices_fit(voices@, events@, sample_rate as int),
{
    let mut i: usize = 0;
    while i < voices.len()
        invariant
            i <= voices@.len(),
            forall|k: int|
                0 <= k < i && #[trigger] sounds(voices@, events@, k) ==> voice_fits(
                    voices@[k],
                    events@,
                    sample_rate as int,
                ),
        decreases voices.len() - i,
    {
        if is_first(voices, i) {
            let notes: Vec<CapturedMidi> = notes_of(events, voices[i].0);
            if notes.len() > 0 {
                assert(sounds(voices@, events@, i as int));
                let bytes: usize = voices[i].1.as_str().as_bytes().len();
                if voices[i].0 == 0xFFFF || bytes as u64 >= VLQ_LIMIT || !can_write(
                    sample_rate,
                    notes.as_slice(),
                ) {
                    return false;
                }
            }
        }
        i = i + 1;
    }
    true
}

fn file_name(slot: u16, name: &str) -> (file: String)
    requires
        slot < u16::MAX,
    ensures
        file@ == sidecar_name(slot, name@),
{
    let mut file: String = "inst".to_owned();
    push_padded(&mut file, (slot + 1) as u64, 2);
    file.append("-");
    let tail: String = file_slug(name);
    file.append(tail.as_str());
    file.append(".mid");
    file
}

/// The sidecars of a take.
pub fn sidecars(
    sample_rate: u32,
    voices: &Vec<(u16, String)>,
    events: &Vec<CapturedMidi>,
    dropped: u64,
) -> (out: Vec<Sidecar>)
    requires
        voices_fit(voices@, events@, sample_rate as int),
    ensures
        out@.map_values(|s: Sidecar| s@) == sidecars_of(
            voices@,
            events@,
            sample_rate as int,
            dropped,
            voices@.len() as int,
        ),
{
    let mut out: Vec<Sidecar> = Vec::new();
    let ghost rate = sample_rate as int;
    let mut i: usize = 0;
    assert(out@.map_values(|s: Sidecar| s@) =~= sidecars_of(voices@, events@, rate, dropped, 0));
    while i < voices.len()
        invariant
            rate == sample_rate as int,
            i <= voices@.len(),
            voices_fit(voices@, events@, rate),
            out@.map_values(|s: Sidecar| s@) == sidecars_of(
                voices@,
                events@,
                rate,
                dropped,
                i as int,
            ),
        decreases voices.len() - i,
    {
        let ghost before = out@;
        if is_first(voices, i) {
            let notes: Vec<CapturedMidi> = notes_of(events, voices[i].0);
            if notes.len() > 0 {
                assert(sounds(voices@, events@, i as int));
                let name: &String = &voices[i].1;
                let report: MidiTrackReport = MidiTrackReport {
                    file: file_name(voices[i].0, name.as_str()),
                    name: name.clone(),
                    events: notes.len() as u64,
                    dropped_events: dropped,
                };
                let bytes: Vec<u8> = build_smf(name.as_str(), sample_rate, notes.as_slice());
                let sidecar: Sidecar = Sidecar { report, bytes };
                assert(sidecar@ == sidecar_of(voices@[i as int], events@, rate, dropped));
                out.push(sidecar);
                assert(out@.map_values(|s: Sidecar| s@) =~= before.map_values(
                    |s: Sidecar| s@,
                ).push(sidecar@));
            }
        }
        i = i + 1;
    }
    out
}

/// Takes everything out of a ring that is in it.
pub fn drain_notes(rx: &mut RingRx<CapturedMidi>) -> (notes: Vec<CapturedMidi>)
    ensures
        final(rx).taken() == old(rx).taken() + notes@,
        notes@.len() < ENDLESS ==> final(rx).misses() == old(rx).misses() + 1,
        final(rx).looks() == old(rx).looks(),
        final(rx).origin() == old(rx).origin(),
{
    let ghost before = rx.taken();
    let ghost misses = rx.misses();
    let mut notes: Vec<CapturedMidi> = Vec::new();
    let mut left: u64 = ENDLESS;
    assert(rx.taken() =~= before + notes@);
    while left > 0
        invariant
            before == old(rx).taken(),
            misses == old(rx).misses(),
            rx.misses() == misses,
            rx.looks() == old(rx).looks(),
            rx.origin() == old(rx).origin(),
            left + notes@.len() == ENDLESS,
            rx.taken() == before + notes@,
        decreases left,
    {
        match rx.pop() {
            Some(event) => {
                notes.push(event);
                assert(rx.taken() =~= before + notes@);
            },
            None => {
                return notes;
            },
        }
        left = left - 1;
    }
    notes
}

/// The sidecars of a finished capture; `None` where a voice that was played
/// cannot be written.
pub fn write_sidecars(sample_rate: u32, sink: &mut MidiSink) -> (out: Option<Vec<Sidecar>>)
    ensures
        final(sink).voices == old(sink).voices,
        ({
            let notes = final(sink).rx.taken().skip(old(sink).rx.taken().len() as int);
            let dropped = final(sink).dropped.reads().last();
            &&& old(sink).rx.taken().is_prefix_of(final(sink).rx.taken())
            &&& notes.len() < ENDLESS ==> final(sink).rx.misses() == old(sink).rx.misses() + 1
            &&& final(sink).dropped.reads() == old(sink).dropped.reads().push(dropped)
            &&& final(sink).dropped.counted() == old(sink).dropped.counted()
            &&& final(sink).rx.looks() == old(sink).rx.looks()
            &&& final(sink).rx.origin() == old(sink).rx.origin()
            &&& match out {
                Some(written) => voices_fit(old(sink).voices@, notes, sample_rate as int)
                    && written@.map_values(|s: Sidecar| s@) == sidecars_of(
                    old(sink).voices@,
                    notes,
                    sample_rate as int,
                    dropped,
                    old(sink).voices@.len() as int,
                ),
                None => !voices_fit(old(sink).voices@, notes, sample_rate as int),
            }
        }),
{
    let ghost before = sink.rx.taken();
    let notes: Vec<CapturedMidi> = drain_notes(&mut sink.rx);
    let dropped: u64 = sink.dropped.read();
    assert(sink.rx.taken().skip(before.len() as int) =~= notes@);
    if !can_write_voices(sample_rate, &sink.voices, &notes) {
        return None;
    }
    Some(sidecars(sample_rate, &sink.voices, &notes, dropped))
}

/// Every instrument gets a file of its own: two slots never share a name.
pub proof fn each_instrument_gets_its_own_file(
    a: u16,
    b: u16,
    name: Seq<char>,
    other: Seq<char>,
)
    requires
        sidecar_name(a, name) == sidecar_name(b, other),
    ensures
        a == b,
{
    let x = padded((a + 1) as nat, 2);
    let y = padded((b + 1) as nat, 2);
    let n = "inst"@.len() as int;
    let left = sidecar_name(a, name);
    let right = sidecar_name(b, other);
    a_padded_number_reads_back((a + 1) as nat, 2);
    a_padded_number_reads_back((b + 1) as nat, 2);
    reveal_strlit("-");
    assert(left =~= "inst"@ + x + ("-"@ + slug(name) + ".mid"@));
    assert(right =~= "inst"@ + y + ("-"@ + slug(other) + ".mid"@));
    assert(left[n + x.len()] == '-');
    assert(right[n + y.len()] == '-');
    if x.len() < y.len() {
        assert(right[n + x.len()] == y[x.len() as int]);
    } else if y.len() < x.len() {
        assert(left[n + y.len()] == x[y.len() as int]);
    }
    assert(x =~= left.subrange(n, n + x.len()));
    assert(y =~= right.subrange(n, n + y.len()));
}

} // verus!
