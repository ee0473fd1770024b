//! Buses: groups that mix into the master, and auxes that collect sends.

use vstd::prelude::*;

use crate::console::id::BusId;
use crate::console::parse::ParseEnumError;
use crate::single::Single;
use crate::text::same_text;

verus! {

#[derive(Debug, Clone, Copy, PartialEq, Eq, Hash, Structural)]
pub enum BusKind {
    /// A stereo subgroup in front of the master.
    Group,
    /// A mono send collector that feeds effects.
    Aux,
}

impl BusKind {
    /// Every kind.
    pub const ALL: [BusKind; 2] = [BusKind::Group, BusKind::Aux];

    /// The one name of the kind.
    pub open spec fn name(self) -> Seq<char> {
        match self {
            BusKind::Group => "group"@,
            BusKind::Aux => "aux"@,
        }
    }

    /// The name used on the wire, in manifests and in logs.
    pub fn as_str(self) -> (name: &'static str)
        ensures
            name@ == self.name(),
    {
        match self {
            BusKind::Group => "group",
            BusKind::Aux => "aux",
        }
    }

    /// The kind with the name `s`.
    pub fn from_name(s: &str) -> (parsed: Result<BusKind, ParseEnumError>)
        ensures
            match parsed {
                Ok(kind) => kind.name() == s@,
                Err(e) => e.kind@ == "bus kind"@ && e.value@ == s@ && forall|kind: BusKind|
                    #![trigger kind.name()]
                    kind.name() != s@,
            },
    {
        if same_text(s, "group") {
            Ok(BusKind::Group)
        } else if same_text(s, "aux") {
            Ok(BusKind::Aux)
        } else {
            Err(ParseEnumError { kind: "bus kind", value: s.to_owned() })
        }
    }

    /// Every kind is listed, and none twice.
    pub proof fn all_are_listed(kind: BusKind)
        ensures
            BusKind::ALL@.contains(kind),
            BusKind::ALL@.no_duplicates(),
    {
        assert(BusKind::ALL@[match kind {
            BusKind::Group => 0int,
            BusKind::Aux => 1int,
        }] == kind);
    }

    /// Every kind comes back from its own name.
    pub proof fn names_are_distinct(a: BusKind, b: BusKind)
        ensures
            a.name() == b.name() ==> a == b,
    {
        reveal_strlit("group");
        reveal_strlit("aux");
        assert("group"@.len() != "aux"@.len());
    }
}

impl std::str::FromStr for BusKind {
    type Err = ParseEnumError;

    fn from_str(s: &str) -> (parsed: Result<BusKind, ParseEnumError>)
        ensures
            match parsed {
                Ok(kind) => kind.name() == s@,
                Err(e) => e.kind@ == "bus kind"@ && e.value@ == s@ && forall|kind: BusKind|
                    #![trigger kind.name()]
                    kind.name() != s@,
            },
    {
        BusKind::from_name(s)
    }
}

/// One bus of the console.
#[derive(Debug, PartialEq)]
pub struct BusState {
    pub id: BusId,
    pub kind: BusKind,
    pub name: String,
    pub fader_db: Single,
    pub pan: Single,
    pub mute: bool,
    pub pfl: bool,
}

/// What a bus holds.
#[verifier::ext_equal]
pub ghost struct BusView {
    pub id: BusId,
    pub kind: BusKind,
    pub name: Seq<char>,
    pub fader_db: Single,
    pub pan: Single,
    pub mute: bool,
    pub pfl: bool,
}

impl View for BusState {
    type V = BusView;

    open spec fn view(&self) -> BusView {
        BusView {
            id: self.id,
            kind: self.kind,
            name: self.name@,
            fader_db: self.fader_db,
            pan: self.pan,
            mute: self.mute,
            pfl: self.pfl,
        }
    }
}

/// A fresh bus stands at unity, centred and open.
pub open spec fn fresh_bus(id: BusId, kind: BusKind, name: Seq<char>) -> BusView {
    BusView {
        id,
        kind,
        name,
        fader_db: Single { bits: 0 },
        pan: Single { bits: 0 },
        mute: false,
        pfl: false,
    }
}

impl BusState {
    /// A fresh bus.
    pub fn new(id: BusId, kind: BusKind, name: String) -> (bus: BusState)
        ensures
            bus@ == fresh_bus(id, kind, name@),
    {
        BusState {
            id,
            kind,
            name,
            fader_db: Single { bits: 0 },
            pan: Single { bits: 0 },
            mute: false,
            pfl: false,
        }
    }
}

impl Clone for BusState {
    fn clone(&self) -> (copy: BusState)
        ensures
            copy@ == self@,
    {
        BusState {
            id: self.id,
            kind: self.kind,
            name: self.name.clone(),
            fader_db: self.fader_db,
            pan: self.pan,
            mute: self.mute,
            pfl: self.pfl,
        }
    }
}

} // verus!
