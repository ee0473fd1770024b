//! The MIDI sidecars of a take: what was played, read from a file or written to
//! one file per instrument.

use midly::MetaMessage;
use midly::MidiMessage;
use midly::Smf;
use midly::Timing;
use midly::TrackEventKind;
use vstd::prelude::*;
use vstd::utf8::encode_utf8;

use crate::console::instrument::CapturedMidi;
use crate::project::headers::has_odd_header;
use crate::project::midi::gap;
use crate::project::midi::is_short;
use crate::project::midi::low_bits;
use crate::project::midi::reached;
use crate::project::midi::sample_at;
use crate::project::midi::sample_of;
use crate::project::midi::smf;
use crate::project::midi::tick_at;
use crate::project::midi::ticks_keep_the_order;
use crate::project::midi::ticks_map_back;
use crate::project::midi::track_bytes;
use crate::project::midi::wrapped;
use crate::project::midi::MICROS_PER_QUARTER;
use crate::project::midi::TICKS_PER_QUARTER;
use crate::project::midi::TICKS_PER_SECOND;
use crate::project::order::order_changes_nothing;
use crate::project::order::sort;
use crate::project::order::sorts;
use crate::project::order::Ranked;

verus! {

/// One event of a sidecar, at its place in the take.
#[derive(Debug, Clone, Copy, PartialEq, Eq, Structural)]
pub struct SidecarEvent {
    /// Samples since the take started.
    pub sample: u64,
    pub status: u8,
    pub data1: u8,
    pub data2: u8,
}

impl Ranked for SidecarEvent {
    open spec fn rank(&self) -> int {
        self.sample as int
    }

    fn ranked(&self) -> (rank: u64) {
        self.sample
    }
}

/// Why a sidecar could not be read.
#[derive(Debug)]
pub enum MidiReadError {
    Io(String),
    Parse(String),
}

impl MidiReadError {
    /// What the error says.
    pub open spec fn says(&self) -> Seq<char> {
        match *self {
            MidiReadError::Io(text) => text@,
            MidiReadError::Parse(text) => "not a MIDI file this daemon can read: "@ + text@,
        }
    }

    /// What the error says.
    pub fn to_string(&self) -> (text: String)
        ensures
            text@ == self.says(),
    {
        match self {
            MidiReadError::Io(text) => text.clone(),
            MidiReadError::Parse(text) => {
                let mut out: String = "not a MIDI file this daemon can read: ".to_owned();
                out.append(text.as_str());
                out
            },
        }
    }
}

/// A message of one channel.
#[derive(Debug, Clone, Copy, PartialEq, Eq, Structural)]
pub enum ChannelMessage {
    /// A key and its velocity.
    NoteOff(u8, u8),
    /// A key and its velocity.
    NoteOn(u8, u8),
    /// A key and its pressure.
    Aftertouch(u8, u8),
    /// A controller and its value.
    Controller(u8, u8),
    ProgramChange(u8),
    ChannelAftertouch(u8),
    /// The bend, in 14 bits.
    PitchBend(u16),
}

/// A message as three bytes, on the first channel.
pub open spec fn encoded(message: ChannelMessage) -> (u8, u8, u8) {
    match message {
        ChannelMessage::NoteOff(key, vel) => (0x80, key, vel),
        ChannelMessage::NoteOn(key, vel) => (0x90, key, vel),
        ChannelMessage::Aftertouch(key, vel) => (0xA0, key, vel),
        ChannelMessage::Controller(controller, value) => (0xB0, controller, value),
        ChannelMessage::ProgramChange(program) => (0xC0, program, 0),
        ChannelMessage::ChannelAftertouch(vel) => (0xD0, vel, 0),
        ChannelMessage::PitchBend(bend) => (
            0xE0,
            (bend as int % 128) as u8,
            (bend as int / 128 % 256) as u8,
        ),
    }
}

/// A message as three bytes, on the first channel.
pub fn encode(message: ChannelMessage) -> (bytes: (u8, u8, u8))
    ensures
        bytes == encoded(message),
{
    match message {
        ChannelMessage::NoteOff(key, vel) => (0x80, key, vel),
        ChannelMessage::NoteOn(key, vel) => (0x90, key, vel),
        ChannelMessage::Aftertouch(key, vel) => (0xA0, key, vel),
        ChannelMessage::Controller(controller, value) => (0xB0, controller, value),
        ChannelMessage::ProgramChange(program) => (0xC0, program, 0),
        ChannelMessage::ChannelAftertouch(vel) => (0xD0, vel, 0),
        ChannelMessage::PitchBend(bend) => (
            0xE0,
            (bend % 128) as u8,
            (bend / 128 % 256) as u8,
        ),
    }
}

/// A channel message of `midly`.
#[verifier::external_type_specification]
#[verifier::external_body]
pub struct ExMidiMessage(midly::MidiMessage);

/// What a channel message of `midly` holds.
pub uninterp spec fn message_says(message: midly::MidiMessage) -> ChannelMessage;

/// The variants of `midly::MidiMessage`, one by one: what it holds is what the
/// message made of it holds.
#[verifier::external_body]
fn from_message(message: &midly::MidiMessage) -> (plain: ChannelMessage)
    ensures
        plain == message_says(*message),
{
    match *message {
        MidiMessage::NoteOff { key, vel } => ChannelMessage::NoteOff(key.as_int(), vel.as_int()),
        MidiMessage::NoteOn { key, vel } => ChannelMessage::NoteOn(key.as_int(), vel.as_int()),
        MidiMessage::Aftertouch { key, vel } => ChannelMessage::Aftertouch(key.as_int(), vel.as_int()),
        MidiMessage::Controller { controller, value } => ChannelMessage::Controller(controller.as_int(), value.as_int()),
        MidiMessage::ProgramChange { program } => ChannelMessage::ProgramChange(program.as_int()),
        MidiMessage::ChannelAftertouch { vel } => ChannelMessage::ChannelAftertouch(vel.as_int()),
        MidiMessage::PitchBend { bend } => ChannelMessage::PitchBend(bend.0.as_int()),
    }
}

/// One step of a parsed track: so many ticks on, this happens.
#[derive(Debug)]
pub enum SmfStep {
    Tempo { delta: u32, micros: u32 },
    Voice { delta: u32, channel: u8, message: midly::MidiMessage },
    /// Anything that no synth is sent.
    Other { delta: u32 },
}

/// A parsed file: its ticks a quarter, where it counts quarters, and its tracks.
#[derive(Debug)]
pub struct SmfFile {
    pub ticks_per_quarter: Option<u16>,
    pub tracks: Vec<Vec<SmfStep>>,
}

/// What a step holds.
pub ghost enum StepView {
    Tempo { delta: int, micros: int },
    Voice { delta: int, channel: u8, message: ChannelMessage },
    Other { delta: int },
}

/// What a parsed file holds.
pub ghost struct SmfView {
    pub ticks_per_quarter: Option<u16>,
    pub tracks: Seq<Seq<StepView>>,
}

impl SmfStep {
    /// What the step holds.
    pub open spec fn says(self) -> StepView {
        match self {
            SmfStep::Tempo { delta, micros } => StepView::Tempo {
                delta: delta as int,
                micros: micros as int,
            },
            SmfStep::Voice { delta, channel, message } => StepView::Voice {
                delta: delta as int,
                channel,
                message: message_says(message),
            },
            SmfStep::Other { delta } => StepView::Other { delta: delta as int },
        }
    }
}

/// What the steps of a track hold.
pub open spec fn steps_say(steps: Seq<SmfStep>) -> Seq<StepView> {
    steps.map_values(|step: SmfStep| step.says())
}

impl SmfFile {
    /// What the file holds.
    pub open spec fn says(self) -> SmfView {
        SmfView {
            ticks_per_quarter: self.ticks_per_quarter,
            tracks: self.tracks@.map_values(|track: Vec<SmfStep>| steps_say(track@)),
        }
    }
}

/// What `midly::Smf::parse` makes of a file: what it holds, or why it is none.
pub uninterp spec fn smf_of(bytes: Seq<u8>) -> Result<SmfView, Seq<char>>;

/// What an attempt at parsing came to.
pub open spec fn outcome(parsed: Result<SmfFile, String>) -> Result<SmfView, Seq<char>> {
    match parsed {
        Ok(file) => Ok(file.says()),
        Err(text) => Err(text@),
    }
}

/// What a captured message holds once it is written.
pub open spec fn written_message(event: CapturedMidi) -> ChannelMessage {
    let a = (event.data1 % 128) as u8;
    let b = (event.data2 % 128) as u8;
    let kind = event.status as int / 16;
    if kind == 8 {
        ChannelMessage::NoteOff(a, b)
    } else if kind == 9 {
        ChannelMessage::NoteOn(a, b)
    } else if kind == 10 {
        ChannelMessage::Aftertouch(a, b)
    } else if kind == 11 {
        ChannelMessage::Controller(a, b)
    } else if kind == 12 {
        ChannelMessage::ProgramChange(a)
    } else if kind == 13 {
        ChannelMessage::ChannelAftertouch(a)
    } else {
        ChannelMessage::PitchBend((b * 128 + a) as u16)
    }
}

/// The steps of a written track: the tempo, the name, the events, the end.
pub open spec fn written_track(sample_rate: int, events: Seq<CapturedMidi>) -> Seq<StepView> {
    seq![
        StepView::Tempo { delta: 0, micros: MICROS_PER_QUARTER as int },
        StepView::Other { delta: 0 },
    ] + Seq::new(
        events.len(),
        |i: int|
            StepView::Voice {
                delta: gap(events, sample_rate, i),
                channel: 0,
                message: written_message(events[i]),
            },
    ) + seq![StepView::Other { delta: 0 }]
}

/// What a written file holds.
pub open spec fn written_file(sample_rate: int, events: Seq<CapturedMidi>) -> SmfView {
    SmfView {
        ticks_per_quarter: Some(TICKS_PER_QUARTER),
        tracks: seq![written_track(sample_rate, events)],
    }
}

/// Whether a file holds to the limits of the format: channel messages only,
/// distances and the name's length in 28 bits, the track's length in 32.
pub open spec fn standard(name: Seq<char>, sample_rate: int, events: Seq<CapturedMidi>) -> bool {
    &&& encode_utf8(name).len() < 0x1000_0000
    &&& track_bytes(name, sample_rate, events).len() < 0x1_0000_0000
    &&& forall|i: int|
        0 <= i < events.len() ==> 0x80 <= (#[trigger] events[i]).status < 0xF0 && gap(
            events,
            sample_rate,
            i,
        ) < 0x1000_0000
}

/// Whether a file that was written within the limits of the format holds what
/// was written.
pub open spec fn holds_what_was_written(
    bytes: Seq<u8>,
    found: Result<SmfView, Seq<char>>,
) -> bool {
    forall|name: Seq<char>, sample_rate: int, events: Seq<CapturedMidi>|
        bytes == #[trigger] smf(name, sample_rate, events) && standard(name, sample_rate, events)
            ==> found == Ok::<SmfView, Seq<char>>(written_file(sample_rate, events))
}

/// `midly::Smf::parse` reads a file. What it makes of it depends on the bytes
/// alone. Of a file that was written within the limits of the format it finds
/// what was written. A header chunk with a frame rate of -128 is left out: midly
/// negates that rate in eight bits.
#[verifier::external_body]
fn parse_smf(bytes: &Vec<u8>) -> (parsed: Result<SmfFile, String>)
    requires
        !has_odd_header(bytes@),
    ensures
        outcome(parsed) == smf_of(bytes@),
        holds_what_was_written(bytes@, outcome(parsed)),
{
    let file = Smf::parse(bytes).map_err(|e| e.to_string())?;
    let tracks = file.tracks.iter().map(|track| track.iter().map(|event| match (event.delta.as_int(), event.kind) {
        (delta, TrackEventKind::Meta(MetaMessage::Tempo(t))) => SmfStep::Tempo { delta, micros: t.as_int() },
        (delta, TrackEventKind::Midi { channel, message }) => SmfStep::Voice { delta, channel: channel.as_int(), message },
        (delta, _) => SmfStep::Other { delta },
    }).collect()).collect();
    let ticks_per_quarter = match file.header.timing {
        Timing::Metrical(ticks) => Some(ticks.as_int()),
        Timing::Timecode(..) => None,
    };
    Ok(SmfFile { ticks_per_quarter, tracks })
}

impl StepView {
    /// The ticks from the step before.
    pub open spec fn delta(self) -> int {
        match self {
            StepView::Tempo { delta, .. } => delta,
            StepView::Voice { delta, .. } => delta,
            StepView::Other { delta } => delta,
        }
    }
}

/// The tick at which the first `n` steps of a track end.
pub open spec fn tick_after(track: Seq<StepView>, n: int) -> int
    decreases n,
{
    if n <= 0 {
        0
    } else {
        wrapped(tick_after(track, n - 1) + track[n - 1].delta())
    }
}

/// The tempo behind the first `n` steps of a track. Each track starts at the
/// tempo that files have by default.
pub open spec fn tempo_after(track: Seq<StepView>, n: int) -> int
    decreases n,
{
    if n <= 0 {
        MICROS_PER_QUARTER as int
    } else {
        match track[n - 1] {
            StepView::Tempo { micros, .. } => micros,
            _ => tempo_after(track, n - 1),
        }
    }
}

/// What a synth is sent for step `i` of a track, and when.
pub open spec fn heard_at(track: Seq<StepView>, ticks: int, sample_rate: int, i: int) -> Option<
    SidecarEvent,
> {
    match track[i] {
        StepView::Voice { channel, message, .. } => Some(
            SidecarEvent {
                sample: sample_at(
                    tick_after(track, i + 1),
                    tempo_after(track, i),
                    ticks,
                    sample_rate,
                ) as u64,
                status: encoded(message).0 | channel,
                data1: encoded(message).1,
                data2: encoded(message).2,
            },
        ),
        _ => None,
    }
}

/// What a synth is sent for the first `n` steps of a track.
pub open spec fn heard(track: Seq<StepView>, ticks: int, sample_rate: int, n: int) -> Seq<
    SidecarEvent,
>
    decreases n,
{
    if n <= 0 {
        Seq::empty()
    } else {
        let earlier = heard(track, ticks, sample_rate, n - 1);
        match heard_at(track, ticks, sample_rate, n - 1) {
            Some(event) => earlier.push(event),
            None => earlier,
        }
    }
}

/// What a synth is sent for the first `n` tracks, track by track.
pub open spec fn all_heard(tracks: Seq<Seq<StepView>>, ticks: int, sample_rate: int, n: int) -> Seq<
    SidecarEvent,
>
    decreases n,
{
    if n <= 0 {
        Seq::empty()
    } else {
        all_heard(tracks, ticks, sample_rate, n - 1) + heard(
            tracks[n - 1],
            ticks,
            sample_rate,
            tracks[n - 1].len() as int,
        )
    }
}

fn read_track(track: &Vec<SmfStep>, ticks: u16, sample_rate: u32, out: &mut Vec<SidecarEvent>)
    ensures
        final(out)@ == old(out)@ + heard(
            steps_say(track@),
            ticks as int,
            sample_rate as int,
            track@.len() as int,
        ),
{
    let ghost before = out@;
    let ghost steps = steps_say(track@);
    let ghost rate = sample_rate as int;
    let mut micros: u32 = MICROS_PER_QUARTER;
    let mut tick: u64 = 0;
    let mut i: usize = 0;
    assert(out@ =~= before + heard(steps, ticks as int, rate, 0));
    while i < track.len()
        invariant
            rate == sample_rate as int,
            steps == steps_say(track@),
            i <= track@.len(),
            tick == tick_after(steps, i as int),
            micros == tempo_after(steps, i as int),
            out@ == before + heard(steps, ticks as int, rate, i as int),
        decreases track.len() - i,
    {
        assert(steps[i as int] == track@[i as int].says());
        match &track[i] {
            SmfStep::Tempo { delta, micros: next } => {
                tick = low_bits(tick as u128 + *delta as u128);
                micros = *next;
            },
            SmfStep::Voice { delta, channel, message } => {
                tick = low_bits(tick as u128 + *delta as u128);
                let (status, data1, data2) = encode(from_message(message));
                out.push(
                    SidecarEvent {
                        sample: sample_of(tick, micros, ticks, sample_rate),
                        status: status | *channel,
                        data1,
                        data2,
                    },
                );
            },
            SmfStep::Other { delta } => {
                tick = low_bits(tick as u128 + *delta as u128);
            },
        }
        i = i + 1;
        assert(out@ =~= before + heard(steps, ticks as int, rate, i as int));
    }
}

/// What reading a file comes to, given what the file holds.
pub open spec fn reads(
    file: Result<SmfView, Seq<char>>,
    sample_rate: int,
    read: Result<Vec<SidecarEvent>, MidiReadError>,
) -> bool {
    match file {
        Err(text) => read matches Err(MidiReadError::Parse(t)) && t@ == text,
        Ok(view) => match view.ticks_per_quarter {
            None => read matches Err(MidiReadError::Parse(t)) && t@
                == "SMPTE-timed files are not supported"@,
            Some(ticks) => if view.tracks.len() == 0 {
                read matches Err(MidiReadError::Parse(t)) && t@ == "the file has no tracks"@
            } else {
                read matches Ok(events) && sorts(
                    all_heard(view.tracks, ticks as int, sample_rate, view.tracks.len() as int),
                    events@,
                )
            },
        },
    }
}

/// The events of a parsed file in the order of the take. Every track is merged,
/// and the file's own division and tempo decide where its ticks fall. A file
/// that counts frames is refused: played as if it counted quarters it would run
/// at the wrong speed. A file without a track is a file cut short.
pub fn events_of(parsed: Result<SmfFile, String>, sample_rate: u32) -> (read: Result<
    Vec<SidecarEvent>,
    MidiReadError,
>)
    ensures
        reads(outcome(parsed), sample_rate as int, read),
{
    let file: SmfFile = match parsed {
        Ok(file) => file,
        Err(text) => {
            return Err(MidiReadError::Parse(text));
        },
    };
    let ticks: u16 = match file.ticks_per_quarter {
        Some(ticks) => ticks,
        None => {
            return Err(MidiReadError::Parse("SMPTE-timed files are not supported".to_owned()));
        },
    };
    let ghost view = file.says();
    assert(view.tracks.len() == file.tracks@.len());
    if file.tracks.len() == 0 {
        return Err(MidiReadError::Parse("the file has no tracks".to_owned()));
    }
    let mut out: Vec<SidecarEvent> = Vec::new();
    let mut i: usize = 0;
    assert(out@ =~= all_heard(view.tracks, ticks as int, sample_rate as int, 0));
    while i < file.tracks.len()
        invariant
            view == file.says(),
            i <= file.tracks@.len(),
            out@ == all_heard(view.tracks, ticks as int, sample_rate as int, i as int),
        decreases file.tracks.len() - i,
    {
        assert(view.tracks[i as int] == steps_say(file.tracks@[i as int]@));
        assert(steps_say(file.tracks@[i as int]@).len() == file.tracks@[i as int]@.len());
        read_track(&file.tracks[i], ticks, sample_rate, &mut out);
        i = i + 1;
    }
    Ok(sort(out))
}

/// Reads a sidecar into the order of the take.
pub fn read_midi_sidecar(bytes: &Vec<u8>, sample_rate: u32) -> (read: Result<
    Vec<SidecarEvent>,
    MidiReadError,
>)
    requires
        !has_odd_header(bytes@),
    ensures
        reads(smf_of(bytes@), sample_rate as int, read),
        forall|name: Seq<char>, rate: int, events: Seq<CapturedMidi>|
            bytes@ == #[trigger] smf(name, rate, events) && standard(name, rate, events) ==> reads(
                Ok(written_file(rate, events)),
                sample_rate as int,
                read,
            ),
{
    let parsed: Result<SmfFile, String> = parse_smf(bytes);
    events_of(parsed, sample_rate)
}

/// Whether events stand in the order of the take, are channel messages, and
/// fall on ticks that fit into 64 bits.
pub open spec fn playable(sample_rate: int, events: Seq<CapturedMidi>) -> bool {
    &&& sample_rate > 0
    &&& forall|i: int|
        0 <= i < events.len() ==> 0x80 <= (#[trigger] events[i]).status < 0xF0
            && events[i].sample * TICKS_PER_SECOND / sample_rate <= u64::MAX
    &&& forall|i: int, j: int|
        0 <= i <= j < events.len() ==> (#[trigger] events[i]).sample <= (
        #[trigger] events[j]).sample
}

/// Whether an event is one that was captured: the same message, without its
/// channel, at most one tick and one sample early.
pub open spec fn recalls(read: SidecarEvent, played: CapturedMidi, sample_rate: int) -> bool {
    &&& read.status == played.status as int / 16 * 16
    &&& read.data1 == played.data1 % 128
    &&& read.data2 == if is_short(played.status) {
        0
    } else {
        played.data2 as int % 128
    }
    &&& read.sample <= played.sample
    &&& played.sample - read.sample <= sample_rate / TICKS_PER_SECOND as int + 1
}

proof fn lemma_reached(sample_rate: int, events: Seq<CapturedMidi>, n: int)
    requires
        playable(sample_rate, events),
        0 <= n <= events.len(),
    ensures
        reached(events, sample_rate, n) == if n == 0 {
            0
        } else {
            tick_at(events[n - 1].sample as int, sample_rate)
        },
        0 <= reached(events, sample_rate, n) <= u64::MAX,
    decreases n,
{
    if n > 0 {
        lemma_reached(sample_rate, events, n - 1);
        if n > 1 {
            ticks_keep_the_order(
                events[n - 2].sample as int,
                events[n - 1].sample as int,
                sample_rate,
            );
        }
    }
}

proof fn lemma_written_message(event: CapturedMidi)
    requires
        0x80 <= event.status < 0xF0,
    ensures
        ({
            let bytes = encoded(written_message(event));
            &&& bytes.0 == event.status as int / 16 * 16
            &&& bytes.1 == event.data1 % 128
            &&& bytes.2 == if is_short(event.status) {
                0
            } else {
                event.data2 as int % 128
            }
        }),
{
    let kind = event.status as int / 16;
    assert(8 <= kind < 15);
}

proof fn lemma_heard(sample_rate: u32, events: Seq<CapturedMidi>, n: int)
    requires
        playable(sample_rate as int, events),
        0 <= n <= events.len(),
    ensures
        ({
            let track = written_track(sample_rate as int, events);
            let out = heard(track, TICKS_PER_QUARTER as int, sample_rate as int, n + 2);
            &&& tick_after(track, n + 2) == reached(events, sample_rate as int, n)
            &&& tempo_after(track, n + 2) == MICROS_PER_QUARTER
            &&& out.len() == n
            &&& forall|i: int|
                0 <= i < n ==> recalls(#[trigger] out[i], events[i], sample_rate as int)
                    && out[i].sample == sample_at(
                    tick_at(events[i].sample as int, sample_rate as int),
                    MICROS_PER_QUARTER as int,
                    TICKS_PER_QUARTER as int,
                    sample_rate as int,
                )
        }),
    decreases n,
{
    let rate = sample_rate as int;
    let track = written_track(rate, events);
    if n == 0 {
        reveal_with_fuel(tick_after, 3);
        reveal_with_fuel(tempo_after, 3);
        reveal_with_fuel(heard, 3);
        assert(track[0] == StepView::Tempo { delta: 0, micros: MICROS_PER_QUARTER as int });
        assert(track[1] == StepView::Other { delta: 0 });
    } else {
        lemma_heard(sample_rate, events, n - 1);
        lemma_reached(rate, events, n - 1);
        lemma_reached(rate, events, n);
        let event = events[n - 1];
        assert(track[n + 1] == StepView::Voice {
            delta: gap(events, rate, n - 1),
            channel: 0,
            message: written_message(event),
        });
        lemma_written_message(event);
        ticks_map_back(event.sample, sample_rate);
        let status = encoded(written_message(event)).0;
        assert(status | 0u8 == status) by (bit_vector);
    }
}

/// What was played reads back from its file: as many events, in the same order,
/// each the message that was captured, at its place in the take, and none in front
/// of one that came earlier.
pub proof fn what_was_played_reads_back(
    sample_rate: u32,
    events: Seq<CapturedMidi>,
    read: Result<Vec<SidecarEvent>, MidiReadError>,
)
    requires
        playable(sample_rate as int, events),
        reads(Ok(written_file(sample_rate as int, events)), sample_rate as int, read),
    ensures
        read matches Ok(back) && back@.len() == events.len() && forall|i: int|
            0 <= i < events.len() ==> recalls(
                #[trigger] back@[i],
                events[i],
                sample_rate as int,
            ),
        read matches Ok(back) && forall|i: int, j: int|
            0 <= i <= j < back@.len() ==> (#[trigger] back@[i]).sample <= (
            #[trigger] back@[j]).sample,
{
    let rate = sample_rate as int;
    let n = events.len() as int;
    let track = written_track(rate, events);
    let tracks = seq![track];
    let ticks = TICKS_PER_QUARTER as int;
    lemma_heard(sample_rate, events, n);
    let out = heard(track, ticks, rate, n + 2);
    assert(track.len() == n + 3);
    assert(track[n + 2] == StepView::Other { delta: 0 });
    assert(heard(track, ticks, rate, n + 3) == out);
    reveal_with_fuel(all_heard, 2);
    assert(all_heard(tracks, ticks, rate, 1) =~= out);
    assert forall|i: int, j: int| 0 <= i < j < out.len() implies (#[trigger] out[i]).rank() <= (
    #[trigger] out[j]).rank() by {
        ticks_keep_the_order(events[i].sample as int, events[j].sample as int, rate);
        let a = tick_at(events[i].sample as int, rate);
        let b = tick_at(events[j].sample as int, rate);
        lemma_samples_keep_the_order(a, b, events[j].sample as int, rate);
    }
    if let Ok(back) = read {
        order_changes_nothing(out, back@);
    }
}

/// Later ticks never fall on earlier samples, as long as samples fit into 64
/// bits.
proof fn lemma_samples_keep_the_order(a: int, b: int, sample: int, sample_rate: int)
    requires
        0 <= a <= b,
        0 < sample_rate,
        0 <= sample <= u64::MAX,
        b == sample * TICKS_PER_SECOND / sample_rate,
    ensures
        sample_at(a, MICROS_PER_QUARTER as int, TICKS_PER_QUARTER as int, sample_rate) <= sample_at(
            b,
            MICROS_PER_QUARTER as int,
            TICKS_PER_QUARTER as int,
            sample_rate,
        ),
{
    let all = sample * 960;
    assert(b * sample_rate <= all) by (nonlinear_arith)
        requires
            sample_rate > 0,
            b == all / sample_rate,
    ;
    assert(0 <= a * sample_rate <= b * sample_rate) by (nonlinear_arith)
        requires
            0 <= a <= b,
            sample_rate > 0,
    ;
    assert(a * 500_000 * sample_rate == (a * sample_rate) * 500_000) by (nonlinear_arith);
    assert(b * 500_000 * sample_rate == (b * sample_rate) * 500_000) by (nonlinear_arith);
    let low = a * sample_rate;
    let high = b * sample_rate;
    assert(low * 500_000 / 480_000_000 == low / 960);
    assert(high * 500_000 / 480_000_000 == high / 960);
    assert(0 <= low / 960 <= high / 960 <= sample);
}

} // verus!
