//! The identifiers of the console's parts.

use vstd::prelude::*;

use crate::text::numbered;
use crate::text::numeral;

verus! {

/// Identifies one channel strip.
#[derive(Debug, Clone, Copy, PartialEq, Eq, Hash, PartialOrd, Ord, Structural)]
pub struct StripId(pub u32);

/// Identifies one bus.
#[derive(Debug, Clone, Copy, PartialEq, Eq, Hash, PartialOrd, Ord, Structural)]
pub struct BusId(pub u32);

/// Identifies one effects unit.
#[derive(Debug, Clone, Copy, PartialEq, Eq, Hash, PartialOrd, Ord, Structural)]
pub struct FxId(pub u32);

/// Identifies one recorded take.
#[derive(Debug, Clone, Copy, PartialEq, Eq, Hash, PartialOrd, Ord, Structural)]
pub struct TakeId(pub u32);

/// Identifies one instrument of the rack.
#[derive(Debug, Clone, Copy, PartialEq, Eq, Hash, PartialOrd, Ord, Structural)]
pub struct InstrumentId(pub u32);

impl StripId {
    /// The identifier as it reads in messages.
    pub open spec fn label(self) -> Seq<char> {
        "strip#"@ + numeral(self.0 as nat)
    }

    /// `strip#` and the number.
    pub fn to_string(&self) -> (text: String)
        ensures
            text@ == self.label(),
    {
        numbered("strip#", self.0 as u64)
    }
}

impl BusId {
    /// The identifier as it reads in messages.
    pub open spec fn label(self) -> Seq<char> {
        "bus#"@ + numeral(self.0 as nat)
    }

    /// `bus#` and the number.
    pub fn to_string(&self) -> (text: String)
        ensures
            text@ == self.label(),
    {
        numbered("bus#", self.0 as u64)
    }
}

impl FxId {
    /// The identifier as it reads in messages.
    pub open spec fn label(self) -> Seq<char> {
        "fx#"@ + numeral(self.0 as nat)
    }

    /// `fx#` and the number.
    pub fn to_string(&self) -> (text: String)
        ensures
            text@ == self.label(),
    {
        numbered("fx#", self.0 as u64)
    }
}

impl TakeId {
    /// The identifier as it reads in messages.
    pub open spec fn label(self) -> Seq<char> {
        "take#"@ + numeral(self.0 as nat)
    }

    /// `take#` and the number.
    pub fn to_string(&self) -> (text: String)
        ensures
            text@ == self.label(),
    {
        numbered("take#", self.0 as u64)
    }
}

impl InstrumentId {
    /// The identifier as it reads in messages.
    pub open spec fn label(self) -> Seq<char> {
        "instrument#"@ + numeral(self.0 as nat)
    }

    /// `instrument#` and the number.
    pub fn to_string(&self) -> (text: String)
        ensures
            text@ == self.label(),
    {
        numbered("instrument#", self.0 as u64)
    }
}

} // verus!
