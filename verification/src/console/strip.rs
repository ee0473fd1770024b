//! Channel strips: input, gain, EQ, sends, pan, fader, switches.

use vstd::prelude::*;

use crate::console::db::FADER_MIN_DB;
use crate::console::eq::flat_eq;
use crate::console::eq::ChannelEq;
use crate::console::id::BusId;
use crate::console::id::InstrumentId;
use crate::console::id::StripId;
use crate::console::parse::ParseEnumError;
use crate::single::Single;
use crate::text::copy_optional_text;
use crate::text::same_optional_text;
use crate::text::same_text;
use crate::text::text_of;

verus! {

/// Where a send, or a direct out, taps the strip's signal.
#[derive(Debug, Clone, Copy, PartialEq, Eq, Hash, Structural)]
pub enum SendTap {
    PreFader,
    PostFader,
}

impl SendTap {
    /// Every tap.
    pub const ALL: [SendTap; 2] = [SendTap::PreFader, SendTap::PostFader];

    /// The one name of the tap.
    pub open spec fn name(self) -> Seq<char> {
        match self {
            SendTap::PreFader => "pre_fader"@,
            SendTap::PostFader => "post_fader"@,
        }
    }

    /// The name used on the wire, in manifests and in logs.
    pub fn as_str(self) -> (name: &'static str)
        ensures
            name@ == self.name(),
    {
        match self {
            SendTap::PreFader => "pre_fader",
            SendTap::PostFader => "post_fader",
        }
    }

    /// The tap with the name `s`.
    pub fn from_name(s: &str) -> (parsed: Result<SendTap, ParseEnumError>)
        ensures
            match parsed {
                Ok(tap) => tap.name() == s@,
                Err(e) => e.kind@ == "send tap"@ && e.value@ == s@ && forall|tap: SendTap|
                    #![trigger tap.name()]
                    tap.name() != s@,
            },
    {
        if same_text(s, "pre_fader") {
            Ok(SendTap::PreFader)
        } else if same_text(s, "post_fader") {
            Ok(SendTap::PostFader)
        } else {
            Err(ParseEnumError { kind: "send tap", value: s.to_owned() })
        }
    }

    /// Every tap is listed, and none twice.
    pub proof fn all_are_listed(tap: SendTap)
        ensures
            SendTap::ALL@.contains(tap),
            SendTap::ALL@.no_duplicates(),
    {
        assert(SendTap::ALL@[match tap {
            SendTap::PreFader => 0int,
            SendTap::PostFader => 1int,
        }] == tap);
    }

    /// Every tap comes back from its own name.
    pub proof fn names_are_distinct(a: SendTap, b: SendTap)
        ensures
            a.name() == b.name() ==> a == b,
    {
        reveal_strlit("pre_fader");
        reveal_strlit("post_fader");
        assert("pre_fader"@.len() != "post_fader"@.len());
    }
}

impl std::str::FromStr for SendTap {
    type Err = ParseEnumError;

    fn from_str(s: &str) -> (parsed: Result<SendTap, ParseEnumError>)
        ensures
            match parsed {
                Ok(tap) => tap.name() == s@,
                Err(e) => e.kind@ == "send tap"@ && e.value@ == s@ && forall|tap: SendTap|
                    #![trigger tap.name()]
                    tap.name() != s@,
            },
    {
        SendTap::from_name(s)
    }
}

/// Where a strip's main signal goes.
#[derive(Debug, Clone, Copy, PartialEq, Eq, Hash, Structural)]
pub enum RouteTarget {
    Master,
    Bus { id: BusId },
}

/// What feeds a strip: a channel of a hardware device, or a channel of a
/// virtual instrument. A device of `None` is the system default input.
#[derive(Debug, PartialEq, Eq)]
pub enum InputAssign {
    Device { device: Option<String>, device_channel: u16 },
    Instrument { instrument: InstrumentId, channel: u16 },
}

/// What an input patch names.
#[verifier::ext_equal]
pub ghost enum InputView {
    Device { device: Option<Seq<char>>, device_channel: u16 },
    Instrument { instrument: InstrumentId, channel: u16 },
}

impl InputView {
    /// The instrument named, if any.
    pub open spec fn instrument_id(self) -> Option<InstrumentId> {
        match self {
            InputView::Instrument { instrument, .. } => Some(instrument),
            InputView::Device { .. } => None,
        }
    }

    /// The channel within whatever is named.
    pub open spec fn channel_of(self) -> u16 {
        match self {
            InputView::Device { device_channel, .. } => device_channel,
            InputView::Instrument { channel, .. } => channel,
        }
    }
}

impl View for InputAssign {
    type V = InputView;

    open spec fn view(&self) -> InputView {
        match *self {
            InputAssign::Device { device, device_channel } => InputView::Device {
                device: text_of(device),
                device_channel,
            },
            InputAssign::Instrument { instrument, channel } => InputView::Instrument {
                instrument,
                channel,
            },
        }
    }
}

impl Clone for InputAssign {
    fn clone(&self) -> (copy: InputAssign)
        ensures
            copy@ == self@,
    {
        match self {
            InputAssign::Device { device, device_channel } => InputAssign::Device {
                device: copy_optional_text(device),
                device_channel: *device_channel,
            },
            InputAssign::Instrument { instrument, channel } => InputAssign::Instrument {
                instrument: *instrument,
                channel: *channel,
            },
        }
    }
}

/// What an optional input patch names.
pub open spec fn input_of(input: Option<InputAssign>) -> Option<InputView> {
    match input {
        Some(assign) => Some(assign@),
        None => None,
    }
}

/// A copy of an optional input patch.
pub fn copy_input(input: &Option<InputAssign>) -> (copy: Option<InputAssign>)
    ensures
        input_of(copy) == input_of(*input),
{
    match input {
        Some(assign) => Some(assign.clone()),
        None => None,
    }
}

impl InputAssign {
    /// A hardware patch.
    pub fn device(device: Option<String>, channel: u16) -> (assign: InputAssign)
        ensures
            assign@ == (InputView::Device { device: text_of(device), device_channel: channel }),
    {
        InputAssign::Device { device, device_channel: channel }
    }

    /// A patch onto one channel of a virtual instrument.
    pub fn instrument(instrument: InstrumentId, channel: u16) -> (assign: InputAssign)
        ensures
            assign@ == (InputView::Instrument { instrument, channel }),
    {
        InputAssign::Instrument { instrument, channel }
    }

    /// The device this patch names: `None` for an instrument patch,
    /// `Some(None)` for the system default.
    pub fn device_name(&self) -> (name: Option<Option<&str>>)
        ensures
            match (self@, name) {
                (InputView::Instrument { .. }, None) => true,
                (InputView::Device { device: None, .. }, Some(None)) => true,
                (InputView::Device { device: Some(d), .. }, Some(Some(n))) => n@ == d,
                _ => false,
            },
    {
        match self {
            InputAssign::Device { device, .. } => match device {
                Some(name) => Some(Some(name.as_str())),
                None => Some(None),
            },
            InputAssign::Instrument { .. } => None,
        }
    }

    /// The instrument this patch names, if any.
    pub fn instrument_id(&self) -> (id: Option<InstrumentId>)
        ensures
            id == self@.instrument_id(),
    {
        match self {
            InputAssign::Instrument { instrument, .. } => Some(*instrument),
            InputAssign::Device { .. } => None,
        }
    }

    /// The channel within whatever the patch names.
    pub fn channel(&self) -> (channel: u16)
        ensures
            channel == self@.channel_of(),
    {
        match self {
            InputAssign::Device { device_channel, .. } => *device_channel,
            InputAssign::Instrument { channel, .. } => *channel,
        }
    }

    /// Whether two patches name the same channel of the same thing.
    pub fn same_as(&self, other: &InputAssign) -> (same: bool)
        ensures
            same == (self@ == other@),
    {
        match (self, other) {
            (
                InputAssign::Device { device, device_channel },
                InputAssign::Device { device: d, device_channel: c },
            ) => same_optional_text(device, d) && *device_channel == *c,
            (
                InputAssign::Instrument { instrument, channel },
                InputAssign::Instrument { instrument: i, channel: c },
            ) => *instrument == *i && *channel == *c,
            _ => false,
        }
    }
}

/// The four fields an input patch may carry on the wire, all optional.
#[derive(Debug, PartialEq, Eq)]
pub struct InputWire {
    pub device: Option<String>,
    pub device_channel: Option<u16>,
    pub instrument: Option<InstrumentId>,
    pub channel: Option<u16>,
}

/// Why a set of wire fields is not an input patch.
#[derive(Debug, Clone, Copy, PartialEq, Eq, Structural)]
pub enum InputWireError {
    /// Both a device and an instrument are named.
    Both,
    /// An instrument is named without a channel.
    InstrumentWithoutChannel,
    /// A channel is given without an instrument.
    ChannelWithoutInstrument,
    /// Nothing is named.
    Neither,
}

impl InputWireError {
    /// The message for a reader.
    pub open spec fn says(self) -> Seq<char> {
        match self {
            InputWireError::Both =>
                "an input patch names either a device or an instrument, not both"@,
            InputWireError::InstrumentWithoutChannel =>
                "an instrument patch needs a `channel`"@,
            InputWireError::ChannelWithoutInstrument =>
                "`channel` belongs to an instrument patch; a device patch uses `device_channel`"@,
            InputWireError::Neither =>
                "an input patch needs `device_channel` or `instrument`"@,
        }
    }

    /// The message for a reader.
    pub fn message(self) -> (text: &'static str)
        ensures
            text@ == self.says(),
    {
        match self {
            InputWireError::Both =>
                "an input patch names either a device or an instrument, not both",
            InputWireError::InstrumentWithoutChannel => "an instrument patch needs a `channel`",
            InputWireError::ChannelWithoutInstrument =>
                "`channel` belongs to an instrument patch; a device patch uses `device_channel`",
            InputWireError::Neither => "an input patch needs `device_channel` or `instrument`",
        }
    }
}

/// What the wire fields mean. The two shapes share no field, so a patch that
/// names both things, or neither, is an error and never a silent pick.
pub open spec fn wire_meaning(
    device: Option<Seq<char>>,
    device_channel: Option<u16>,
    instrument: Option<InstrumentId>,
    channel: Option<u16>,
) -> Result<InputView, InputWireError> {
    match (instrument, device is Some || device_channel is Some) {
        (Some(_), true) => Err(InputWireError::Both),
        (Some(instrument), false) => match channel {
            Some(channel) => Ok(InputView::Instrument { instrument, channel }),
            None => Err(InputWireError::InstrumentWithoutChannel),
        },
        (None, _) => if channel is Some {
            Err(InputWireError::ChannelWithoutInstrument)
        } else {
            match device_channel {
                Some(device_channel) => Ok(InputView::Device { device, device_channel }),
                None => Err(InputWireError::Neither),
            }
        },
    }
}

impl InputAssign {
    /// The patch that a set of wire fields stands for.
    pub fn from_wire(wire: InputWire) -> (read: Result<InputAssign, InputWireError>)
        ensures
            match (
                read,
                wire_meaning(
                    text_of(wire.device),
                    wire.device_channel,
                    wire.instrument,
                    wire.channel,
                ),
            ) {
                (Ok(assign), Ok(meant)) => assign@ == meant,
                (Err(e), Err(meant)) => e == meant,
                _ => false,
            },
    {
        match wire.instrument {
            Some(instrument) => {
                if wire.device.is_some() || wire.device_channel.is_some() {
                    return Err(InputWireError::Both);
                }
                match wire.channel {
                    Some(channel) => Ok(InputAssign::instrument(instrument, channel)),
                    None => Err(InputWireError::InstrumentWithoutChannel),
                }
            },
            None => {
                if wire.channel.is_some() {
                    return Err(InputWireError::ChannelWithoutInstrument);
                }
                match wire.device_channel {
                    Some(device_channel) => Ok(InputAssign::device(wire.device, device_channel)),
                    None => Err(InputWireError::Neither),
                }
            },
        }
    }

    /// The wire fields of a patch. A patch on the default device carries no
    /// device at all.
    pub fn to_wire(&self) -> (wire: InputWire)
        ensures
            match self@ {
                InputView::Device { device, device_channel } => text_of(wire.device) == device
                    && wire.device_channel == Some(device_channel) && wire.instrument is None
                    && wire.channel is None,
                InputView::Instrument { instrument, channel } => wire.device is None
                    && wire.device_channel is None && wire.instrument == Some(instrument)
                    && wire.channel == Some(channel),
            },
    {
        match self {
            InputAssign::Device { device, device_channel } => InputWire {
                device: copy_optional_text(device),
                device_channel: Some(*device_channel),
                instrument: None,
                channel: None,
            },
            InputAssign::Instrument { instrument, channel } => InputWire {
                device: None,
                device_channel: None,
                instrument: Some(*instrument),
                channel: Some(*channel),
            },
        }
    }
}

/// Reading back the fields that a patch writes gives the patch.
pub proof fn input_wire_round_trips(assign: InputAssign, wire: InputWire)
    requires
        call_ensures(InputAssign::to_wire, (&assign,), wire),
    ensures
        wire_meaning(
            text_of(wire.device),
            wire.device_channel,
            wire.instrument,
            wire.channel,
        ) == Ok::<InputView, InputWireError>(assign@),
{
}

/// One aux send from a strip toward a bus.
#[derive(Debug, Clone, Copy, PartialEq, Eq, Structural)]
pub struct SendState {
    pub dest: BusId,
    pub level_db: Single,
    pub tap: SendTap,
}

/// One channel strip.
#[derive(Debug, PartialEq)]
pub struct StripState {
    pub id: StripId,
    pub name: String,
    pub input: Option<InputAssign>,
    /// Input trim, in front of the EQ.
    pub gain_db: Single,
    pub eq: ChannelEq,
    pub sends: Vec<SendState>,
    /// From -1 (hard left) to 1 (hard right).
    pub pan: Single,
    pub fader_db: Single,
    pub mute: bool,
    pub pfl: bool,
    pub record_arm: bool,
    pub route_to: RouteTarget,
}

/// What a strip holds.
#[verifier::ext_equal]
pub ghost struct StripView {
    pub id: StripId,
    pub name: Seq<char>,
    pub input: Option<InputView>,
    pub gain_db: Single,
    pub eq: ChannelEq,
    pub sends: Seq<SendState>,
    pub pan: Single,
    pub fader_db: Single,
    pub mute: bool,
    pub pfl: bool,
    pub record_arm: bool,
    pub route_to: RouteTarget,
}

impl View for StripState {
    type V = StripView;

    open spec fn view(&self) -> StripView {
        StripView {
            id: self.id,
            name: self.name@,
            input: input_of(self.input),
            gain_db: self.gain_db,
            eq: self.eq,
            sends: self.sends@,
            pan: self.pan,
            fader_db: self.fader_db,
            mute: self.mute,
            pfl: self.pfl,
            record_arm: self.record_arm,
            route_to: self.route_to,
        }
    }
}

/// A fresh strip: nothing patched, flat, and the fader down, so that a newly
/// patched line never blasts the room.
pub open spec fn fresh_strip(id: StripId, name: Seq<char>) -> StripView {
    StripView {
        id,
        name,
        input: None,
        gain_db: Single { bits: 0 },
        eq: flat_eq(),
        sends: Seq::empty(),
        pan: Single { bits: 0 },
        fader_db: Single { bits: FADER_MIN_DB },
        mute: false,
        pfl: false,
        record_arm: false,
        route_to: RouteTarget::Master,
    }
}

impl StripState {
    /// A fresh strip.
    pub fn new(id: StripId, name: String) -> (strip: StripState)
        ensures
            strip@ == fresh_strip(id, name@),
    {
        StripState {
            id,
            name,
            input: None,
            gain_db: Single { bits: 0 },
            eq: ChannelEq::default(),
            sends: Vec::new(),
            pan: Single { bits: 0 },
            fader_db: Single { bits: FADER_MIN_DB },
            mute: false,
            pfl: false,
            record_arm: false,
            route_to: RouteTarget::Master,
        }
    }
}

impl Clone for StripState {
    fn clone(&self) -> (copy: StripState)
        ensures
            copy@ == self@,
    {
        let sends: Vec<SendState> = self.sends.clone();
        assert(sends@ =~= self.sends@);
        StripState {
            id: self.id,
            name: self.name.clone(),
            input: copy_input(&self.input),
            gain_db: self.gain_db,
            eq: self.eq,
            sends,
            pan: self.pan,
            fader_db: self.fader_db,
            mute: self.mute,
            pfl: self.pfl,
            record_arm: self.record_arm,
            route_to: self.route_to,
        }
    }
}

} // verus!
