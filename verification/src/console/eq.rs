//! The three-band channel equaliser. The ends of its ranges are given by their
//! single-precision bits.

use vstd::prelude::*;

use crate::console::parse::ParseEnumError;
use crate::single::Single;
use crate::text::same_text;

verus! {

/// EQ gain knobs sweep this far either side of flat: 15 dB.
pub const EQ_GAIN_RANGE_DB: u32 = 0x4170_0000;

/// The other end of the gain sweep: -15 dB.
pub const EQ_GAIN_CUT_DB: u32 = 0xC170_0000;

/// Lower end of the swept mid: 100 Hz.
pub const MID_FREQ_MIN_HZ: u32 = 0x42C8_0000;

/// Upper end of the swept mid: 8 kHz.
pub const MID_FREQ_MAX_HZ: u32 = 0x45FA_0000;

/// Lowest frequency that any band accepts: 20 Hz.
pub const EQ_FREQ_MIN_HZ: u32 = 0x41A0_0000;

/// Highest frequency that any band accepts: 20 kHz.
pub const EQ_FREQ_MAX_HZ: u32 = 0x469C_4000;

/// Below a Q of 0.1 the filter is a wire.
pub const EQ_Q_MIN: u32 = 0x3DCC_CCCD;

/// Above a Q of 10 the filter is a whistle.
pub const EQ_Q_MAX: u32 = 0x4120_0000;

#[derive(Debug, Clone, Copy, PartialEq, Eq, Hash, Structural)]
pub enum EqBandKind {
    LowShelf,
    Peak,
    HighShelf,
}

impl EqBandKind {
    /// Every kind.
    pub const ALL: [EqBandKind; 3] = [
        EqBandKind::LowShelf,
        EqBandKind::Peak,
        EqBandKind::HighShelf,
    ];

    /// The one name of the kind.
    pub open spec fn name(self) -> Seq<char> {
        match self {
            EqBandKind::LowShelf => "low_shelf"@,
            EqBandKind::Peak => "peak"@,
            EqBandKind::HighShelf => "high_shelf"@,
        }
    }

    /// The name used on the wire, in manifests and in logs.
    pub fn as_str(self) -> (name: &'static str)
        ensures
            name@ == self.name(),
    {
        match self {
            EqBandKind::LowShelf => "low_shelf",
            EqBandKind::Peak => "peak",
            EqBandKind::HighShelf => "high_shelf",
        }
    }

    /// The kind with the name `s`.
    pub fn from_name(s: &str) -> (parsed: Result<EqBandKind, ParseEnumError>)
        ensures
            match parsed {
                Ok(kind) => kind.name() == s@,
                Err(e) => e.kind@ == "eq band"@ && e.value@ == s@ && forall|kind: EqBandKind|
                    #![trigger kind.name()]
                    kind.name() != s@,
            },
    {
        if same_text(s, "low_shelf") {
            Ok(EqBandKind::LowShelf)
        } else if same_text(s, "peak") {
            Ok(EqBandKind::Peak)
        } else if same_text(s, "high_shelf") {
            Ok(EqBandKind::HighShelf)
        } else {
            Err(ParseEnumError { kind: "eq band", value: s.to_owned() })
        }
    }

    /// Every kind is listed, and none twice.
    pub proof fn all_are_listed(kind: EqBandKind)
        ensures
            EqBandKind::ALL@.contains(kind),
            EqBandKind::ALL@.no_duplicates(),
    {
        assert(EqBandKind::ALL@[match kind {
            EqBandKind::LowShelf => 0int,
            EqBandKind::Peak => 1int,
            EqBandKind::HighShelf => 2int,
        }] == kind);
    }

    /// Every kind comes back from its own name.
    pub proof fn names_are_distinct(a: EqBandKind, b: EqBandKind)
        ensures
            a.name() == b.name() ==> a == b,
    {
        reveal_strlit("low_shelf");
        reveal_strlit("peak");
        reveal_strlit("high_shelf");
        assert("low_shelf"@.len() == 9);
        assert("peak"@.len() == 4);
        assert("high_shelf"@.len() == 10);
    }
}

impl std::str::FromStr for EqBandKind {
    type Err = ParseEnumError;

    fn from_str(s: &str) -> (parsed: Result<EqBandKind, ParseEnumError>)
        ensures
            match parsed {
                Ok(kind) => kind.name() == s@,
                Err(e) => e.kind@ == "eq band"@ && e.value@ == s@ && forall|kind: EqBandKind|
                    #![trigger kind.name()]
                    kind.name() != s@,
            },
    {
        EqBandKind::from_name(s)
    }
}

/// One band of a strip's equaliser. The kind is fixed per slot.
#[derive(Debug, Clone, Copy, PartialEq, Eq, Structural)]
pub struct EqBand {
    pub kind: EqBandKind,
    pub freq_hz: Single,
    pub gain_db: Single,
    pub q: Single,
}

/// Low shelf, swept mid peak, high shelf.
#[derive(Debug, Clone, Copy, PartialEq, Eq, Structural)]
pub struct ChannelEq {
    pub enabled: bool,
    pub low: EqBand,
    pub mid: EqBand,
    pub high: EqBand,
}

/// A band that changes nothing, at `freq_hz` with the usual Q of 0.71.
pub open spec fn flat_band(kind: EqBandKind, freq_hz: Single) -> EqBand {
    EqBand { kind, freq_hz, gain_db: Single { bits: 0 }, q: Single { bits: 0x3F35_C28F } }
}

/// Flat at 80 Hz, 800 Hz and 12 kHz, and off: a fresh channel adds no colour
/// until the operator reaches for it.
pub open spec fn flat_eq() -> ChannelEq {
    ChannelEq {
        enabled: false,
        low: flat_band(EqBandKind::LowShelf, Single { bits: 0x42A0_0000 }),
        mid: flat_band(EqBandKind::Peak, Single { bits: 0x4448_0000 }),
        high: flat_band(EqBandKind::HighShelf, Single { bits: 0x463B_8000 }),
    }
}

fn band(kind: EqBandKind, freq_hz: Single) -> (b: EqBand)
    ensures
        b == flat_band(kind, freq_hz),
{
    EqBand { kind, freq_hz, gain_db: Single { bits: 0 }, q: Single { bits: 0x3F35_C28F } }
}

impl Default for ChannelEq {
    fn default() -> (eq: ChannelEq)
        ensures
            eq == flat_eq(),
    {
        ChannelEq {
            enabled: false,
            low: band(EqBandKind::LowShelf, Single { bits: 0x42A0_0000 }),
            mid: band(EqBandKind::Peak, Single { bits: 0x4448_0000 }),
            high: band(EqBandKind::HighShelf, Single { bits: 0x463B_8000 }),
        }
    }
}

} // verus!
