//! Physical outputs and MIDI outputs: the other half of the patch bay.

use vstd::prelude::*;

use crate::console::id::BusId;
use crate::console::id::InstrumentId;
use crate::console::id::StripId;
use crate::console::strip::SendTap;
use crate::text::copy_optional_text;
use crate::text::same_optional_text;
use crate::text::same_text;
use crate::text::text_of;

verus! {

/// Output channels the patch bay may address.
pub const MAX_OUTPUT_PATCHES: usize = 64;

/// What feeds an output channel.
#[derive(Debug, Clone, Copy, PartialEq, Eq, Hash, Structural)]
#[allow(inconsistent_fields)]
pub enum OutputSource {
    Strip { id: StripId },
    Bus { id: BusId },
    Master,
}

/// A physical output channel: the identity of a patch. One jack holds at most
/// one patch. A device of `None` is the system default output.
#[derive(Debug, PartialEq, Eq, Hash)]
pub struct OutputJack {
    pub device: Option<String>,
    pub channel: u16,
}

/// What a jack names.
#[verifier::ext_equal]
pub ghost struct JackView {
    pub device: Option<Seq<char>>,
    pub channel: u16,
}

impl View for OutputJack {
    type V = JackView;

    open spec fn view(&self) -> JackView {
        JackView { device: text_of(self.device), channel: self.channel }
    }
}

impl Clone for OutputJack {
    fn clone(&self) -> (copy: OutputJack)
        ensures
            copy@ == self@,
    {
        OutputJack { device: copy_optional_text(&self.device), channel: self.channel }
    }
}

/// One direct out: a point in the console wired to a jack.
#[derive(Debug, PartialEq, Eq)]
pub struct OutputPatch {
    pub device: Option<String>,
    pub channel: u16,
    /// Channel within the source: 0 for a strip or an aux bus, 0 or 1 for a
    /// group bus or the master.
    pub source_channel: u16,
    /// Where the signal is tapped.
    pub tap: SendTap,
    pub source: OutputSource,
}

/// What a patch holds.
#[verifier::ext_equal]
pub ghost struct PatchView {
    pub device: Option<Seq<char>>,
    pub channel: u16,
    pub source_channel: u16,
    pub tap: SendTap,
    pub source: OutputSource,
}

impl PatchView {
    /// The jack a patch owns: its identity.
    pub open spec fn jack_of(self) -> JackView {
        JackView { device: self.device, channel: self.channel }
    }
}

impl View for OutputPatch {
    type V = PatchView;

    open spec fn view(&self) -> PatchView {
        PatchView {
            device: text_of(self.device),
            channel: self.channel,
            source_channel: self.source_channel,
            tap: self.tap,
            source: self.source,
        }
    }
}

impl Clone for OutputPatch {
    fn clone(&self) -> (copy: OutputPatch)
        ensures
            copy@ == self@,
    {
        OutputPatch {
            device: copy_optional_text(&self.device),
            channel: self.channel,
            source_channel: self.source_channel,
            tap: self.tap,
            source: self.source,
        }
    }
}

impl OutputPatch {
    /// A patch of one channel of a source onto a jack, tapped pre-fader: a
    /// front-of-house fader move must not change what a direct out carries.
    pub fn new(source: OutputSource, source_channel: u16, jack: OutputJack) -> (patch: OutputPatch)
        ensures
            patch@ == (PatchView {
                device: jack@.device,
                channel: jack@.channel,
                source_channel,
                tap: SendTap::PreFader,
                source,
            }),
    {
        OutputPatch {
            device: jack.device,
            channel: jack.channel,
            source_channel,
            tap: SendTap::PreFader,
            source,
        }
    }

    /// The jack this patch owns.
    pub fn jack(&self) -> (jack: OutputJack)
        ensures
            jack@ == self@.jack_of(),
    {
        OutputJack { device: copy_optional_text(&self.device), channel: self.channel }
    }

    /// Whether this patch owns `jack`.
    pub fn is(&self, jack: &OutputJack) -> (owns: bool)
        ensures
            owns == (self@.jack_of() == jack@),
    {
        same_optional_text(&self.device, &jack.device) && self.channel == jack.channel
    }
}

/// MIDI routes the console may hold.
pub const MAX_MIDI_ROUTES: usize = 32;

/// What is sent to a MIDI output port.
#[derive(Debug, Clone, PartialEq, Eq, Hash)]
pub enum MidiSource {
    /// Echo a rack instrument.
    Instrument { id: InstrumentId },
    /// Forward a MIDI input port.
    Port { name: String },
    /// Stream a take's notes back out while it plays.
    Take { name: String },
}

/// What a MIDI source names.
#[verifier::ext_equal]
pub ghost enum MidiSourceView {
    Instrument { id: InstrumentId },
    Port { name: Seq<char> },
    Take { name: Seq<char> },
}

impl View for MidiSource {
    type V = MidiSourceView;

    open spec fn view(&self) -> MidiSourceView {
        match *self {
            MidiSource::Instrument { id } => MidiSourceView::Instrument { id },
            MidiSource::Port { name } => MidiSourceView::Port { name: name@ },
            MidiSource::Take { name } => MidiSourceView::Take { name: name@ },
        }
    }
}

/// One MIDI output route.
#[derive(Debug, Clone, PartialEq, Eq)]
pub struct MidiRoute {
    /// The output port by the name the sequencer prints.
    pub port: String,
    /// `None` passes the source's own channel through; `Some(n)` forces every
    /// message onto channel `n`.
    pub channel: Option<u8>,
    pub source: MidiSource,
}

impl MidiRoute {
    /// Whether the route sends `source` to `port`. The channel is not part of
    /// a route's identity: it is the field that gets edited.
    pub fn is(&self, port: &str, source: &MidiSource) -> (same: bool)
        ensures
            same == (self.port@ == port@ && self.source@ == source@),
    {
        same_text(self.port.as_str(), port) && match (&self.source, source) {
            (MidiSource::Instrument { id }, MidiSource::Instrument { id: other }) => *id == *other,
            (MidiSource::Port { name }, MidiSource::Port { name: other }) => *name == *other,
            (MidiSource::Take { name }, MidiSource::Take { name: other }) => *name == *other,
            _ => false,
        }
    }
}

} // verus!
