//! Effects units.

use vstd::prelude::*;

use crate::console::id::BusId;
use crate::console::id::FxId;
use crate::single::Single;

verus! {

/// What kind of effect a unit is, and its knobs.
#[derive(Debug, Clone, Copy, PartialEq, Eq, Structural)]
pub enum FxParams {
    Reverb { room_size: Single, damping: Single },
    Delay { time_ms: Single, feedback: Single },
}

impl FxParams {
    /// The name of the kind.
    pub open spec fn kind_name(self) -> Seq<char> {
        match self {
            FxParams::Reverb { .. } => "reverb"@,
            FxParams::Delay { .. } => "delay"@,
        }
    }

    /// The name used on the wire and in manifests.
    pub fn kind_str(self) -> (name: &'static str)
        ensures
            name@ == self.kind_name(),
    {
        match self {
            FxParams::Reverb { .. } => "reverb",
            FxParams::Delay { .. } => "delay",
        }
    }

    /// A reverb with both knobs at half.
    pub fn default_reverb() -> (params: FxParams)
        ensures
            params == (FxParams::Reverb {
                room_size: Single { bits: 0x3F00_0000 },
                damping: Single { bits: 0x3F00_0000 },
            }),
    {
        FxParams::Reverb {
            room_size: Single { bits: 0x3F00_0000 },
            damping: Single { bits: 0x3F00_0000 },
        }
    }

    /// A delay of 350 ms that feeds back 0.35 of itself.
    pub fn default_delay() -> (params: FxParams)
        ensures
            params == (FxParams::Delay {
                time_ms: Single { bits: 0x43AF_0000 },
                feedback: Single { bits: 0x3EB3_3333 },
            }),
    {
        FxParams::Delay {
            time_ms: Single { bits: 0x43AF_0000 },
            feedback: Single { bits: 0x3EB3_3333 },
        }
    }
}

/// One effects unit: fed by an aux bus, returned to the master.
#[derive(Debug, PartialEq)]
pub struct FxState {
    pub id: FxId,
    pub name: String,
    pub input: BusId,
    pub params: FxParams,
    pub return_level_db: Single,
}

/// What an effects unit holds.
#[verifier::ext_equal]
pub ghost struct FxView {
    pub id: FxId,
    pub name: Seq<char>,
    pub input: BusId,
    pub params: FxParams,
    pub return_level_db: Single,
}

impl View for FxState {
    type V = FxView;

    open spec fn view(&self) -> FxView {
        FxView {
            id: self.id,
            name: self.name@,
            input: self.input,
            params: self.params,
            return_level_db: self.return_level_db,
        }
    }
}

impl Clone for FxState {
    fn clone(&self) -> (copy: FxState)
        ensures
            copy@ == self@,
    {
        FxState {
            id: self.id,
            name: self.name.clone(),
            input: self.input,
            params: self.params,
            return_level_db: self.return_level_db,
        }
    }
}

} // verus!
