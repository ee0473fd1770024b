//! Virtual instruments: which notes reach which voice of the rack.
//!
//! What a voice sounds like is the synthesizer's business. What it is told is
//! the rack's, and every voice keeps a record of it.

use std::sync::Arc;

use vstd::prelude::*;

use crate::console::instrument::CapturedMidi;
use crate::console::instrument::InstrumentView;
use crate::engine::compiled::rack_base;
use crate::engine::record::MidiCapture;
use crate::engine::ring::one_by_one;
use crate::engine::ring::RingRx;
use crate::engine::ring::ENDLESS;
use crate::text::numbered;
use crate::text::numeral;

verus! {

/// A stereo instrument's channel count.
pub const INSTRUMENT_CHANNELS: usize = 2;

/// How often MIDI is applied inside a block: every so many frames.
pub const SYNTH_SUB_BLOCK: usize = 64;

/// Depth of the MIDI event ring.
pub const MIDI_RING_CAPACITY: usize = 1024;

/// The channel on which every voice is addressed.
pub const VOICE_CHANNEL: i32 = 0;

/// A loaded SoundFont.
#[verifier::external_type_specification]
#[verifier::external_body]
pub struct ExSoundFont(rustysynth::SoundFont);

/// A SoundFont synthesizer.
#[verifier::external_type_specification]
#[verifier::external_body]
pub struct ExSynthesizer(rustysynth::Synthesizer);

/// One MIDI message on its way to the rack.
#[derive(Debug, Clone, Copy, PartialEq, Eq, Structural)]
pub struct MidiEvent {
    pub port: u8,
    pub channel: u8,
    /// The status nibble only, in the upper half.
    pub status: u8,
    pub data1: u8,
    pub data2: u8,
}

/// Which MIDI traffic an instrument answers to.
#[derive(Debug, Clone, Copy, PartialEq, Eq, Structural)]
pub struct MidiBinding {
    /// `None` is bound to nothing.
    pub port: Option<u8>,
    /// `None` is every channel of the port.
    pub channel: Option<u8>,
}

impl Default for MidiBinding {
    fn default() -> (binding: MidiBinding)
        ensures
            binding == (MidiBinding { port: None, channel: None }),
    {
        MidiBinding { port: None, channel: None }
    }
}

/// Whether a binding answers to an event.
pub open spec fn answers(binding: MidiBinding, event: MidiEvent) -> bool {
    &&& binding.port == Some(event.port)
    &&& binding.channel matches Some(channel) ==> channel == event.channel
}

impl MidiBinding {
    /// Whether the binding answers to an event.
    pub fn accepts(&self, event: &MidiEvent) -> (accepted: bool)
        ensures
            accepted == answers(*self, *event),
    {
        let port: bool = match self.port {
            Some(port) => port == event.port,
            None => false,
        };
        let channel: bool = match self.channel {
            Some(channel) => channel == event.channel,
            None => true,
        };
        port && channel
    }
}

/// Which keys a voice answers to.
#[derive(Debug, PartialEq, Eq)]
pub struct KeyFilter {
    /// Inclusive ranges. None at all is the whole keyboard, in stereo.
    pub ranges: Vec<(u8, u8)>,
}

/// Whether a list of key ranges holds a key. An empty list holds them all.
pub open spec fn covered(ranges: Seq<(u8, u8)>, key: u8) -> bool {
    ||| ranges.len() == 0
    ||| exists|i: int|
        0 <= i < ranges.len() && (#[trigger] ranges[i]).0 <= key && key <= ranges[i].1
}

impl View for KeyFilter {
    type V = Seq<(u8, u8)>;

    open spec fn view(&self) -> Seq<(u8, u8)> {
        self.ranges@
    }
}

impl Clone for KeyFilter {
    fn clone(&self) -> (copy: KeyFilter)
        ensures
            copy@ == self@,
    {
        let mut ranges: Vec<(u8, u8)> = Vec::new();
        let mut i: usize = 0;
        while i < self.ranges.len()
            invariant
                i <= self.ranges.len(),
                ranges@ == self.ranges@.take(i as int),
            decreases self.ranges.len() - i,
        {
            let (low, high): (u8, u8) = self.ranges[i];
            ranges.push((low, high));
            i = i + 1;
            assert(ranges@ =~= self.ranges@.take(i as int));
        }
        assert(ranges@ =~= self.ranges@);
        KeyFilter { ranges }
    }
}

impl Default for KeyFilter {
    fn default() -> (keys: KeyFilter)
        ensures
            keys@ == Seq::<(u8, u8)>::empty(),
    {
        KeyFilter { ranges: Vec::new() }
    }
}

impl KeyFilter {
    /// The whole keyboard.
    pub fn all() -> (keys: KeyFilter)
        ensures
            keys@ == Seq::<(u8, u8)>::empty(),
    {
        KeyFilter { ranges: Vec::new() }
    }

    /// Whether the voice is one split of an instrument.
    pub fn is_split(&self) -> (split: bool)
        ensures
            split == (self@.len() > 0),
    {
        self.ranges.len() > 0
    }

    /// Whether the voice answers to a key.
    pub fn covers(&self, key: u8) -> (covers: bool)
        ensures
            covers == covered(self@, key),
    {
        if self.ranges.len() == 0 {
            return true;
        }
        let mut i: usize = 0;
        while i < self.ranges.len()
            invariant
                i <= self.ranges.len(),
                self.ranges.len() > 0,
                forall|j: int|
                    0 <= j < i ==> !((#[trigger] self.ranges@[j]).0 <= key && key
                        <= self.ranges@[j].1),
            decreases self.ranges.len() - i,
        {
            let (low, high): (u8, u8) = self.ranges[i];
            if low <= key && key <= high {
                assert(self.ranges@[i as int].0 <= key && key <= self.ranges@[i as int].1);
                return true;
            }
            i = i + 1;
        }
        false
    }
}

/// What a voice was told.
pub ghost enum Heard {
    /// A MIDI message: the channel it was addressed to, the status and both
    /// data bytes.
    Message { channel: i32, status: u8, data1: u8, data2: u8 },
    /// To release every note it holds.
    Release,
}

/// The settings that a synthesizer was made with: its sample rate, the frames
/// of a block, how many voices sound at once, and whether reverb and chorus are
/// on.
pub uninterp spec fn synth_settings(synth: rustysynth::Synthesizer) -> (u32, usize, u16, bool);

/// The SoundFont that a synthesizer plays from.
pub uninterp spec fn synth_font(synth: rustysynth::Synthesizer) -> rustysynth::SoundFont;

/// A synthesizer, with a record of what it was told.
pub struct SynthVoice {
    pub synth: rustysynth::Synthesizer,
    log: Ghost<Seq<Heard>>,
}

impl SynthVoice {
    /// Everything the synthesizer was told, in order.
    pub closed spec fn heard(&self) -> Seq<Heard> {
        self.log@
    }

    /// The settings that the synthesizer was made with.
    pub closed spec fn settings(&self) -> (u32, usize, u16, bool) {
        synth_settings(self.synth)
    }

    /// The SoundFont that the synthesizer plays from.
    pub closed spec fn font(&self) -> rustysynth::SoundFont {
        synth_font(self.synth)
    }
}

/// Why there is no voice.
#[derive(Debug, Clone, Copy, PartialEq, Eq, Structural)]
pub enum VoiceError {
    SampleRateOutOfRange(u32),
    MaximumPolyphonyOutOfRange(u16),
}

impl VoiceError {
    /// The error in words.
    pub fn to_string(&self) -> (text: String)
        ensures
            text@ == match *self {
                VoiceError::SampleRateOutOfRange(rate) =>
                    "the sample rate must be between 16000 and 192000, but was "@ + numeral(
                    rate as nat,
                ),
                VoiceError::MaximumPolyphonyOutOfRange(voices) =>
                    "the maximum number of polyphony must be between 8 and 256, but was "@
                    + numeral(voices as nat),
            },
    {
        match self {
            VoiceError::SampleRateOutOfRange(rate) => numbered(
                "the sample rate must be between 16000 and 192000, but was ",
                *rate as u64,
            ),
            VoiceError::MaximumPolyphonyOutOfRange(voices) => numbered(
                "the maximum number of polyphony must be between 8 and 256, but was ",
                *voices as u64,
            ),
        }
    }
}

/// `rustysynth::Synthesizer::new` with these settings. It makes a synthesizer
/// that has them and plays from the SoundFont, or none where a setting is out of
/// range: sample rates go from 16000 to 192000, blocks from 8 to 1024 frames,
/// polyphony from 8 to 256 voices.
#[verifier::external_body]
fn new_synth(
    soundfont: &Arc<rustysynth::SoundFont>,
    sample_rate: u32,
    block_size: usize,
    polyphony: u16,
    effects: bool,
) -> (synth: Option<rustysynth::Synthesizer>)
    ensures
        synth is Some <==> (16_000 <= sample_rate <= 192_000 && 8 <= block_size <= 1024 && 8
            <= polyphony <= 256),
        synth matches Some(made) ==> synth_settings(made) == (
            sample_rate,
            block_size,
            polyphony,
            effects,
        ),
        synth matches Some(made) ==> synth_font(made) == **soundfont,
{
    let mut settings = rustysynth::SynthesizerSettings::new(sample_rate as i32);
    settings.block_size = block_size;
    settings.maximum_polyphony = polyphony as usize;
    settings.enable_reverb_and_chorus = effects;
    rustysynth::Synthesizer::new(soundfont, &settings).ok()
}

/// `rustysynth::Synthesizer::process_midi_message` tells the synthesizer one
/// message. It keeps its settings and its SoundFont.
#[verifier::external_body]
fn tell(voice: &mut SynthVoice, channel: i32, status: u8, data1: u8, data2: u8)
    ensures
        final(voice).heard() == old(voice).heard().push(
            Heard::Message { channel, status, data1, data2 },
        ),
        final(voice).settings() == old(voice).settings(),
        final(voice).font() == old(voice).font(),
{
    voice.synth.process_midi_message(channel, status as i32, data1 as i32, data2 as i32);
}

/// `rustysynth::Synthesizer::note_off_all` releases every note that sounds. The
/// synthesizer keeps its settings and its SoundFont.
#[verifier::external_body]
fn release(voice: &mut SynthVoice)
    ensures
        final(voice).heard() == old(voice).heard().push(Heard::Release),
        final(voice).settings() == old(voice).settings(),
        final(voice).font() == old(voice).font(),
{
    voice.synth.note_off_all(false);
}

/// One loaded instrument, or one split of it.
pub struct Instrument {
    pub voice: SynthVoice,
    pub binding: MidiBinding,
    pub keys: KeyFilter,
}

/// What a loaded instrument holds.
#[verifier::ext_equal]
pub ghost struct VoiceView {
    pub heard: Seq<Heard>,
    pub binding: MidiBinding,
    pub keys: Seq<(u8, u8)>,
    /// Sample rate, frames of a block, polyphony, reverb and chorus.
    pub settings: (u32, usize, u16, bool),
    pub font: rustysynth::SoundFont,
}

impl View for Instrument {
    type V = VoiceView;

    open spec fn view(&self) -> VoiceView {
        VoiceView {
            heard: self.voice.heard(),
            binding: self.binding,
            keys: self.keys@,
            settings: self.voice.settings(),
            font: self.voice.font(),
        }
    }
}

/// All that is needed to build one voice.
#[derive(Debug)]
pub struct VoiceSpec {
    pub sample_rate: u32,
    pub polyphony: u16,
    pub effects: bool,
    pub bank: u16,
    pub program: u8,
    pub binding: MidiBinding,
    pub keys: KeyFilter,
}

/// What every new voice is told: the bank in two halves, then the program.
pub open spec fn preset_selection(bank: u16, program: u8) -> Seq<Heard> {
    seq![
        Heard::Message {
            channel: VOICE_CHANNEL,
            status: 0xB0,
            data1: 0x00,
            data2: (bank as int / 128 % 128) as u8,
        },
        Heard::Message {
            channel: VOICE_CHANNEL,
            status: 0xB0,
            data1: 0x20,
            data2: (bank as int % 128) as u8,
        },
        Heard::Message { channel: VOICE_CHANNEL, status: 0xC0, data1: program, data2: 0 },
    ]
}

/// Whether a status is about one key.
pub open spec fn is_keyed(status: u8) -> bool {
    status == 0x80 || status == 0x90 || status == 0xA0
}

/// Whether a voice plays an event that its binding answers to: what is about a
/// key is for the voices that cover the key, everything else for all.
pub open spec fn plays(voice: VoiceView, event: MidiEvent) -> bool {
    is_keyed(event.status) ==> covered(voice.keys, event.data1)
}

/// An event as a voice hears it.
pub open spec fn as_heard(event: MidiEvent) -> Heard {
    Heard::Message {
        channel: VOICE_CHANNEL,
        status: event.status,
        data1: event.data1,
        data2: event.data2,
    }
}

impl Instrument {
    /// Builds a playable voice on its preset.
    pub fn new(soundfont: &Arc<rustysynth::SoundFont>, spec: &VoiceSpec) -> (made: Result<
        Instrument,
        VoiceError,
    >)
        ensures
            match made {
                Ok(instrument) => {
                    &&& 16_000 <= spec.sample_rate <= 192_000
                    &&& 8 <= spec.polyphony <= 256
                    &&& instrument@ == (VoiceView {
                        heard: preset_selection(spec.bank, spec.program),
                        binding: spec.binding,
                        keys: spec.keys@,
                        settings: (
                            spec.sample_rate,
                            SYNTH_SUB_BLOCK,
                            spec.polyphony,
                            spec.effects,
                        ),
                        font: **soundfont,
                    })
                },
                Err(error) => error == if 16_000 <= spec.sample_rate <= 192_000 {
                    VoiceError::MaximumPolyphonyOutOfRange(spec.polyphony)
                } else {
                    VoiceError::SampleRateOutOfRange(spec.sample_rate)
                },
            },
            made is Ok <==> (16_000 <= spec.sample_rate <= 192_000 && 8 <= spec.polyphony <= 256),
    {
        if spec.sample_rate < 16_000 || spec.sample_rate > 192_000 {
            return Err(VoiceError::SampleRateOutOfRange(spec.sample_rate));
        }
        match new_synth(
            soundfont,
            spec.sample_rate,
            SYNTH_SUB_BLOCK,
            spec.polyphony,
            spec.effects,
        ) {
            None => Err(VoiceError::MaximumPolyphonyOutOfRange(spec.polyphony)),
            Some(synth) => {
                let mut voice: SynthVoice = SynthVoice { synth, log: Ghost(Seq::empty()) };
                let coarse: u8 = (spec.bank / 128 % 128) as u8;
                let fine: u8 = (spec.bank % 128) as u8;
                tell(&mut voice, VOICE_CHANNEL, 0xB0, 0x00, coarse);
                tell(&mut voice, VOICE_CHANNEL, 0xB0, 0x20, fine);
                tell(&mut voice, VOICE_CHANNEL, 0xC0, spec.program, 0);
                assert(voice.heard() =~= preset_selection(spec.bank, spec.program));
                Ok(Instrument { voice, binding: spec.binding, keys: spec.keys.clone() })
            },
        }
    }

    /// Applies one event; `false` where the voice ignores it.
    pub fn apply(&mut self, event: &MidiEvent) -> (applied: bool)
        ensures
            applied == plays(old(self)@, *event),
            final(self)@ == if applied {
                VoiceView { heard: old(self)@.heard.push(as_heard(*event)), ..old(self)@ }
            } else {
                old(self)@
            },
    {
        let keyed: bool = event.status == 0x80 || event.status == 0x90 || event.status == 0xA0;
        if keyed && !self.keys.covers(event.data1) {
            return false;
        }
        tell(&mut self.voice, VOICE_CHANNEL, event.status, event.data1, event.data2);
        true
    }
}

/// The engine's instrument rack: one slot per instrument of the document, in
/// document order.
pub struct InstrumentRack {
    /// `None` where the SoundFont would not load: the slot stays, so that every
    /// later instrument keeps its channels.
    pub instruments: Vec<Option<Instrument>>,
    /// Channels of each slot, as the document laid them out.
    pub widths: Vec<u8>,
}

/// What a slot of the rack holds.
pub open spec fn slot_view(slot: Option<Instrument>) -> Option<VoiceView> {
    match slot {
        Some(instrument) => Some(instrument@),
        None => None,
    }
}

impl View for InstrumentRack {
    type V = Seq<Option<VoiceView>>;

    open spec fn view(&self) -> Seq<Option<VoiceView>> {
        Seq::new(self.instruments@.len(), |i: int| slot_view(self.instruments@[i]))
    }
}

/// Channels of the first `n` slots.
pub open spec fn width_before(widths: Seq<u8>, n: int) -> nat
    decreases n,
{
    if n <= 0 {
        0
    } else {
        width_before(widths, n - 1) + widths[n - 1] as nat
    }
}

/// Whether an event reaches the voice of a slot.
pub open spec fn reaches(slot: Option<VoiceView>, event: MidiEvent) -> bool {
    slot matches Some(voice) && answers(voice.binding, event) && plays(voice, event)
}

/// A slot after an event.
pub open spec fn slot_after(slot: Option<VoiceView>, event: MidiEvent) -> Option<VoiceView> {
    if reaches(slot, event) {
        Some(VoiceView { heard: slot->0.heard.push(as_heard(event)), ..slot->0 })
    } else {
        slot
    }
}

/// The rack after an event.
pub open spec fn rack_after(rack: Seq<Option<VoiceView>>, event: MidiEvent) -> Seq<
    Option<VoiceView>,
> {
    Seq::new(rack.len(), |i: int| slot_after(rack[i], event))
}

/// The rack after the first `n` events.
pub open spec fn rack_played(
    rack: Seq<Option<VoiceView>>,
    events: Seq<MidiEvent>,
    n: int,
) -> Seq<Option<VoiceView>>
    decreases n,
{
    if n <= 0 {
        rack
    } else {
        rack_after(rack_played(rack, events, n - 1), events[n - 1])
    }
}

/// What is captured of an event: one entry for each voice of the first `n`
/// slots that it reached.
pub open spec fn captures_of(
    rack: Seq<Option<VoiceView>>,
    event: MidiEvent,
    at: u64,
    n: int,
) -> Seq<CapturedMidi>
    decreases n,
{
    if n <= 0 {
        Seq::empty()
    } else {
        let rest = captures_of(rack, event, at, n - 1);
        if reaches(rack[n - 1], event) {
            rest.push(
                CapturedMidi {
                    sample: at,
                    instrument: (n - 1) as u16,
                    status: event.status,
                    data1: event.data1,
                    data2: event.data2,
                },
            )
        } else {
            rest
        }
    }
}

/// What is captured of the first `n` events. Whom an event reaches does not
/// depend on what was played before.
pub open spec fn captures(
    rack: Seq<Option<VoiceView>>,
    events: Seq<MidiEvent>,
    at: u64,
    n: int,
) -> Seq<CapturedMidi>
    decreases n,
{
    if n <= 0 {
        Seq::empty()
    } else {
        captures(rack, events, at, n - 1) + captures_of(
            rack,
            events[n - 1],
            at,
            rack.len() as int,
        )
    }
}

/// Whether two racks are bound alike.
pub open spec fn same_bindings(a: Seq<Option<VoiceView>>, b: Seq<Option<VoiceView>>) -> bool {
    &&& a.len() == b.len()
    &&& forall|i: int|
        0 <= i < a.len() ==> {
            &&& (#[trigger] a[i] is Some) == (b[i] is Some)
            &&& a[i] matches Some(x) ==> x.binding == b[i]->0.binding && x.keys == b[i]->0.keys
        }
}

proof fn lemma_bindings_stay(rack: Seq<Option<VoiceView>>, events: Seq<MidiEvent>, n: int)
    requires
        0 <= n,
    ensures
        same_bindings(rack, rack_played(rack, events, n)),
    decreases n,
{
    if n > 0 {
        lemma_bindings_stay(rack, events, n - 1);
        let before = rack_played(rack, events, n - 1);
        let after = rack_played(rack, events, n);
        assert forall|i: int| 0 <= i < rack.len() implies {
            &&& (#[trigger] rack[i] is Some) == (after[i] is Some)
            &&& rack[i] matches Some(x) ==> x.binding == after[i]->0.binding && x.keys
                == after[i]->0.keys
        } by {
            assert(after[i] == slot_after(before[i], events[n - 1]));
        }
    }
}

proof fn lemma_captures_read_bindings(
    a: Seq<Option<VoiceView>>,
    b: Seq<Option<VoiceView>>,
    event: MidiEvent,
    at: u64,
    n: int,
)
    requires
        same_bindings(a, b),
        0 <= n <= a.len(),
    ensures
        captures_of(a, event, at, n) == captures_of(b, event, at, n),
    decreases n,
{
    if n > 0 {
        lemma_captures_read_bindings(a, b, event, at, n - 1);
        assert((a[n - 1] is Some) == (b[n - 1] is Some));
    }
}

proof fn lemma_played_prefix(
    rack: Seq<Option<VoiceView>>,
    events: Seq<MidiEvent>,
    more: MidiEvent,
    at: u64,
    n: int,
)
    requires
        0 <= n <= events.len(),
    ensures
        rack_played(rack, events, n) == rack_played(rack, events.push(more), n),
        captures(rack, events, at, n) == captures(rack, events.push(more), at, n),
    decreases n,
{
    if n > 0 {
        lemma_played_prefix(rack, events, more, at, n - 1);
    }
}

impl Default for InstrumentRack {
    fn default() -> (rack: InstrumentRack)
        ensures
            rack@ == Seq::<Option<VoiceView>>::empty(),
            rack.widths@ == Seq::<u8>::empty(),
            rack.wf(),
    {
        let rack = InstrumentRack { instruments: Vec::new(), widths: Vec::new() };
        assert(rack@ =~= Seq::<Option<VoiceView>>::empty());
        rack
    }
}

impl InstrumentRack {
    /// Every slot has a width, and all of them together can be counted.
    pub open spec fn wf(&self) -> bool {
        &&& self.widths@.len() == self.instruments@.len()
        &&& width_before(self.widths@, self.widths@.len() as int) <= usize::MAX
    }

    /// A rack of these slots, as wide as the document has them.
    pub fn new(instruments: Vec<Option<Instrument>>, widths: Vec<u8>) -> (rack: InstrumentRack)
        requires
            instruments@.len() == widths@.len(),
            width_before(widths@, widths@.len() as int) <= usize::MAX,
        ensures
            rack.instruments@ == instruments@,
            rack.widths@ == widths@,
            rack.wf(),
    {
        InstrumentRack { instruments, widths }
    }

    /// Whether the rack has no slots.
    pub fn is_empty(&self) -> (empty: bool)
        ensures
            empty == (self@.len() == 0),
    {
        self.instruments.len() == 0
    }

    /// Channels that the rack writes: those of every slot, loaded or not.
    pub fn channels(&self) -> (channels: usize)
        requires
            self.wf(),
        ensures
            channels == width_before(self.widths@, self.widths@.len() as int),
    {
        let mut total: usize = 0;
        let mut i: usize = 0;
        while i < self.widths.len()
            invariant
                i <= self.widths.len(),
                self.wf(),
                total == width_before(self.widths@, i as int),
            decreases self.widths.len() - i,
        {
            proof {
                lemma_width_grows(self.widths@, i + 1, self.widths@.len() as int);
            }
            total = total + self.widths[i] as usize;
            i = i + 1;
        }
        total
    }

    /// Whether the rack writes any channel.
    pub fn has_channels(&self) -> (any: bool)
        ensures
            any == (width_before(self.widths@, self.widths@.len() as int) > 0),
    {
        let mut i: usize = 0;
        while i < self.widths.len()
            invariant
                i <= self.widths.len(),
                width_before(self.widths@, i as int) == 0,
            decreases self.widths.len() - i,
        {
            if self.widths[i] > 0 {
                proof {
                    lemma_width_grows(self.widths@, i + 1, self.widths@.len() as int);
                }
                return true;
            }
            i = i + 1;
        }
        false
    }

    /// Releases every held note.
    pub fn all_notes_off(&mut self)
        ensures
            final(self)@ == Seq::new(
                old(self)@.len(),
                |i: int|
                    match old(self)@[i] {
                        Some(voice) => Some(
                            VoiceView { heard: voice.heard.push(Heard::Release), ..voice },
                        ),
                        None => None,
                    },
            ),
            final(self).widths == old(self).widths,
    {
        let ghost before = self@;
        let ghost widths = self.widths;
        let mut i: usize = 0;
        while i < self.instruments.len()
            invariant
                i <= self.instruments.len(),
                self.widths == widths,
                self@.len() == before.len(),
                forall|j: int|
                    0 <= j < i ==> #[trigger] self@[j] == match before[j] {
                        Some(voice) => Some(
                            VoiceView { heard: voice.heard.push(Heard::Release), ..voice },
                        ),
                        None => None,
                    },
                forall|j: int| i <= j < before.len() ==> #[trigger] self@[j] == before[j],
            decreases self.instruments.len() - i,
        {
            let ghost rack = self@;
            assert(rack[i as int] == before[i as int]);
            if let Some(instrument) = &mut self.instruments[i] {
                release(&mut instrument.voice);
            }
            assert forall|j: int| 0 <= j < rack.len() && j != i implies #[trigger] self@[j]
                == rack[j] by {}
            i = i + 1;
        }
        assert(self@ =~= Seq::new(
            before.len(),
            |i: int|
                match before[i] {
                    Some(voice) => Some(
                        VoiceView { heard: voice.heard.push(Heard::Release), ..voice },
                    ),
                    None => None,
                },
        ));
    }

    /// Hands one event to every voice that answers to it, and captures what was
    /// played.
    fn play(&mut self, event: MidiEvent, capture: &mut Option<Box<MidiCapture>>, at: u64)
        ensures
            final(self)@ == rack_after(old(self)@, event),
            final(self).widths == old(self).widths,
            capture_grew(
                *old(capture),
                *final(capture),
                captures_of(old(self)@, event, at, old(self)@.len() as int),
            ),
    {
        let ghost before = self@;
        let ghost widths = self.widths;
        let ghost taken = *capture;
        let mut i: usize = 0;
        while i < self.instruments.len()
            invariant
                i <= self.instruments.len(),
                self.widths == widths,
                self@.len() == before.len(),
                forall|j: int| 0 <= j < i ==> #[trigger] self@[j] == slot_after(before[j], event),
                forall|j: int| i <= j < before.len() ==> #[trigger] self@[j] == before[j],
                capture_grew(taken, *capture, captures_of(before, event, at, i as int)),
            decreases self.instruments.len() - i,
        {
            let ghost rack = self@;
            assert(rack[i as int] == before[i as int]);
            let mut applied: bool = false;
            if let Some(instrument) = &mut self.instruments[i] {
                if instrument.binding.accepts(&event) {
                    applied = instrument.apply(&event);
                }
            }
            assert(applied == reaches(before[i as int], event));
            assert(self@[i as int] == slot_after(before[i as int], event));
            assert forall|j: int| 0 <= j < rack.len() && j != i implies #[trigger] self@[j]
                == rack[j] by {}
            if applied {
                proof {
                    let entries = captures_of(before, event, at, i as int);
                    let entry = captures_of(before, event, at, i + 1).last();
                    assert(one_by_one(entries.push(entry)) =~= one_by_one(entries).push(
                        seq![entry],
                    ));
                }
                if let Some(capture) = capture {
                    capture.push(
                        CapturedMidi {
                            sample: at,
                            instrument: i as u16,
                            status: event.status,
                            data1: event.data1,
                            data2: event.data2,
                        },
                    );
                }
            }
            i = i + 1;
        }
        assert(self@ =~= rack_after(before, event));
    }

    /// Applies every waiting event to the voices bound to it. An event that no
    /// voice claims is dropped.
    pub fn drain(
        &mut self,
        midi: &mut RingRx<MidiEvent>,
        capture: &mut Option<Box<MidiCapture>>,
        at: u64,
    )
        ensures
            final(self).widths == old(self).widths,
            final(midi).looks() == old(midi).looks(),
            final(midi).origin() == old(midi).origin(),
            old(midi).taken().is_prefix_of(final(midi).taken()),
            ({
                let events = final(midi).taken().skip(old(midi).taken().len() as int);
                &&& final(self)@ == rack_played(old(self)@, events, events.len() as int)
                &&& capture_grew(
                    *old(capture),
                    *final(capture),
                    captures(old(self)@, events, at, events.len() as int),
                )
                &&& events.len() < ENDLESS ==> final(midi).misses() == old(midi).misses() + 1
            }),
    {
        let ghost before = self@;
        let ghost widths = self.widths;
        let ghost history = midi.taken();
        let ghost misses = midi.misses();
        let ghost looks = midi.looks();
        let ghost origin = midi.origin();
        let ghost first = *capture;
        let ghost mut events: Seq<MidiEvent> = Seq::empty();
        let mut left: u64 = ENDLESS;
        assert(history + events =~= history);
        while left > 0
            invariant
                self.widths == widths,
                midi.looks() == looks,
                midi.origin() == origin,
                midi.taken() == history + events,
                left + events.len() <= ENDLESS,
                left + events.len() < ENDLESS ==> left == 0,
                midi.misses() == misses + if left + events.len() < ENDLESS {
                    1nat
                } else {
                    0nat
                },
                self@ == rack_played(before, events, events.len() as int),
                capture_grew(first, *capture, captures(before, events, at, events.len() as int)),
            decreases left,
        {
            match midi.pop() {
                None => {
                    left = 0;
                },
                Some(event) => {
                    let ghost rack = self@;
                    let ghost held = *capture;
                    self.play(event, capture, at);
                    proof {
                        lemma_bindings_stay(before, events, events.len() as int);
                        lemma_captures_read_bindings(
                            before,
                            rack,
                            event,
                            at,
                            before.len() as int,
                        );
                        lemma_played_prefix(before, events, event, at, events.len() as int);
                        assert(midi.taken() =~= history + events.push(event));
                        events = events.push(event);
                        assert(events[events.len() - 1] == event);
                        lemma_capture_grows(
                            first,
                            held,
                            *capture,
                            captures(before, events, at, events.len() - 1),
                            captures_of(before, event, at, before.len() as int),
                        );
                    }
                    left = left - 1;
                },
            }
        }
        assert(midi.taken().skip(history.len() as int) =~= events);
    }
}

/// Takes every waiting event out and plays none of them: what a rack without
/// channels does, so that nothing it adds later hears history.
pub fn discard(midi: &mut RingRx<MidiEvent>)
    ensures
        final(midi).looks() == old(midi).looks(),
        final(midi).origin() == old(midi).origin(),
        old(midi).taken().is_prefix_of(final(midi).taken()),
        final(midi).taken().len() - old(midi).taken().len() < ENDLESS ==> final(midi).misses()
            == old(midi).misses() + 1,
{
    let ghost history = midi.taken();
    let ghost misses = midi.misses();
    let ghost first = *midi;
    let mut left: u64 = ENDLESS;
    while left > 0
        invariant
            midi.looks() == first.looks(),
            midi.origin() == first.origin(),
            history.is_prefix_of(midi.taken()),
            left + midi.taken().len() - history.len() <= ENDLESS,
            left + midi.taken().len() - history.len() < ENDLESS ==> left == 0,
            midi.misses() == misses + if left + midi.taken().len() - history.len() < ENDLESS {
                1nat
            } else {
                0nat
            },
        decreases left,
    {
        match midi.pop() {
            None => {
                left = 0;
            },
            Some(_) => {
                left = left - 1;
            },
        }
    }
}

/// The frames of the next sub-block: what is left, up to a whole one.
pub fn sub_block(frames: usize, done: usize) -> (chunk: usize)
    requires
        done <= frames,
    ensures
        chunk == if frames - done < SYNTH_SUB_BLOCK {
            frames - done
        } else {
            SYNTH_SUB_BLOCK as int
        },
{
    if frames - done < SYNTH_SUB_BLOCK {
        frames - done
    } else {
        SYNTH_SUB_BLOCK
    }
}

/// Whether a capture was given exactly these entries more: each was offered to the
/// ring once, and is in it or counted as lost.
pub open spec fn capture_grew(
    before: Option<Box<MidiCapture>>,
    after: Option<Box<MidiCapture>>,
    entries: Seq<CapturedMidi>,
) -> bool {
    match (before, after) {
        (Some(a), Some(b)) => {
            &&& b.offered() == a.offered() + entries
            &&& b.tried() == a.tried() + one_by_one(entries)
            &&& a.recorded().is_prefix_of(b.recorded())
            &&& b.recorded().len() + b.lost() == a.recorded().len() + a.lost() + entries.len()
            &&& b.origin() == a.origin()
            &&& b.start() == a.start()
        },
        (None, None) => true,
        _ => false,
    }
}

proof fn lemma_capture_grows(
    a: Option<Box<MidiCapture>>,
    b: Option<Box<MidiCapture>>,
    c: Option<Box<MidiCapture>>,
    first: Seq<CapturedMidi>,
    more: Seq<CapturedMidi>,
)
    requires
        capture_grew(a, b, first),
        capture_grew(b, c, more),
    ensures
        capture_grew(a, c, first + more),
{
    if let (Some(x), Some(z)) = (a, c) {
        assert(z.offered() =~= x.offered() + (first + more));
        assert(one_by_one(first + more) =~= one_by_one(first) + one_by_one(more));
        assert(z.tried() =~= x.tried() + one_by_one(first + more));
    }
}

/// The rack lies as the document says: where every slot is as wide as its
/// instrument, each instrument starts where a patch to it looks.
pub proof fn the_rack_lies_as_the_document_says(
    instruments: Seq<InstrumentView>,
    widths: Seq<u8>,
    i: int,
)
    requires
        0 <= i <= widths.len() <= instruments.len(),
        forall|j: int|
            0 <= j < widths.len() ==> (#[trigger] widths[j]) as nat == instruments[j].width(),
    ensures
        width_before(widths, i) == rack_base(instruments, i),
    decreases i,
{
    if i > 0 {
        the_rack_lies_as_the_document_says(instruments, widths, i - 1);
    }
}

/// The entries of a capture that one slot caused.
pub open spec fn entries_of(entries: Seq<CapturedMidi>, slot: int) -> Seq<CapturedMidi> {
    entries.filter(|entry: CapturedMidi| entry.instrument == slot)
}

/// A captured entry as the voice heard it.
pub open spec fn entry_heard(entry: CapturedMidi) -> Heard {
    Heard::Message {
        channel: VOICE_CHANNEL,
        status: entry.status,
        data1: entry.data1,
        data2: entry.data2,
    }
}

proof fn lemma_entries_of_one_event(
    rack: Seq<Option<VoiceView>>,
    event: MidiEvent,
    at: u64,
    slot: int,
    n: int,
)
    requires
        0 <= slot < rack.len() <= 0x1_0000,
        0 <= n <= rack.len(),
    ensures
        entries_of(captures_of(rack, event, at, n), slot).map_values(
            |entry: CapturedMidi| entry_heard(entry),
        ) == if slot < n && reaches(rack[slot], event) {
            seq![as_heard(event)]
        } else {
            Seq::<Heard>::empty()
        },
    decreases n,
{
    reveal(Seq::filter);
    let all = captures_of(rack, event, at, n);
    let own = |entry: CapturedMidi| entry.instrument == slot;
    let words = |entry: CapturedMidi| entry_heard(entry);
    if n > 0 {
        lemma_entries_of_one_event(rack, event, at, slot, n - 1);
        let rest = captures_of(rack, event, at, n - 1);
        if reaches(rack[n - 1], event) {
            assert(all.drop_last() =~= rest);
            if slot == n - 1 {
                assert(all.filter(own) == rest.filter(own).push(all.last()));
                assert(rest.filter(own).map_values(words).len() == 0);
                assert(all.filter(own).map_values(words) =~= seq![as_heard(event)]);
            } else {
                assert(all.last().instrument != slot);
                assert(all.filter(own) == rest.filter(own));
            }
        }
    } else {
        assert(all.filter(own).map_values(words) =~= Seq::<Heard>::empty());
    }
}

/// The capture and the voices agree: what a take holds for a slot is, in order,
/// what its voice was told while the events came in. Nothing is captured that
/// was not played, and nothing that was played is left out.
pub proof fn a_take_holds_what_was_played(
    rack: Seq<Option<VoiceView>>,
    events: Seq<MidiEvent>,
    at: u64,
    slot: int,
    n: int,
)
    requires
        0 <= slot < rack.len() <= 0x1_0000,
        0 <= n <= events.len(),
        rack[slot] is Some,
    ensures
        rack_played(rack, events, n).len() == rack.len(),
        rack_played(rack, events, n)[slot] is Some,
        rack_played(rack, events, n)[slot]->0.heard == rack[slot]->0.heard + entries_of(
            captures(rack, events, at, n),
            slot,
        ).map_values(|entry: CapturedMidi| entry_heard(entry)),
    decreases n,
{
    reveal(Seq::filter);
    let own = |entry: CapturedMidi| entry.instrument == slot;
    let words = |entry: CapturedMidi| entry_heard(entry);
    if n > 0 {
        a_take_holds_what_was_played(rack, events, at, slot, n - 1);
        lemma_bindings_stay(rack, events, n - 1);
        lemma_entries_of_one_event(rack, events[n - 1], at, slot, rack.len() as int);
        let rest = captures(rack, events, at, n - 1);
        let more = captures_of(rack, events[n - 1], at, rack.len() as int);
        Seq::filter_distributes_over_add(rest, more, own);
        assert((rest + more).filter(own).map_values(words) =~= rest.filter(own).map_values(words)
            + more.filter(own).map_values(words));
        let before = rack_played(rack, events, n - 1);
        assert((rack[slot] is Some) == (before[slot] is Some));
        assert(reaches(before[slot], events[n - 1]) == reaches(rack[slot], events[n - 1]));
        let after = rack_played(rack, events, n);
        assert(after[slot] == slot_after(before[slot], events[n - 1]));
        assert(after[slot]->0.heard =~= rack[slot]->0.heard + (rest + more).filter(own).map_values(
            words,
        ));
    } else {
        assert(rack[slot]->0.heard + Seq::<CapturedMidi>::empty().filter(own).map_values(words)
            =~= rack[slot]->0.heard);
    }
}

pub(crate) proof fn lemma_width_grows(widths: Seq<u8>, i: int, j: int)
    requires
        0 <= i <= j,
    ensures
        width_before(widths, i) <= width_before(widths, j),
    decreases j - i,
{
    if i < j {
        lemma_width_grows(widths, i, j - 1);
    }
}

} // verus!
