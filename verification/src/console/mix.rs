//! The whole console document.

use vstd::prelude::*;

use crate::console::bus::BusKind;
use crate::console::bus::BusState;
use crate::console::bus::BusView;
use crate::console::fx::FxState;
use crate::console::fx::FxView;
use crate::console::id::BusId;
use crate::console::id::FxId;
use crate::console::id::InstrumentId;
use crate::console::id::StripId;
use crate::console::instrument::InstrumentState;
use crate::console::instrument::InstrumentView;
use crate::console::output::JackView;
use crate::console::output::OutputJack;
use crate::console::output::OutputPatch;
use crate::console::output::OutputSource;
use crate::console::output::PatchView;
use crate::console::strip::StripState;
use crate::console::strip::StripView;
use crate::seqs::index_of;
use crate::seqs::lemma_absent;
use crate::seqs::lemma_first;
use crate::seqs::next_free;
use crate::seqs::next_free_is_unused;
use crate::seqs::next_number;
use crate::seqs::views;
use crate::single::Single;

verus! {

/// The master section: one stereo fader and its own record arm.
#[derive(Debug, Clone, Copy, PartialEq, Eq, Structural)]
pub struct MasterState {
    pub fader_db: Single,
    pub record_arm: bool,
}

impl Default for MasterState {
    fn default() -> (master: MasterState)
        ensures
            master == (MasterState { fader_db: Single { bits: 0 }, record_arm: false }),
    {
        MasterState { fader_db: Single { bits: 0 }, record_arm: false }
    }
}

/// The document: the one authoritative state of the mix.
#[derive(Debug, PartialEq)]
pub struct MixerState {
    pub strips: Vec<StripState>,
    pub buses: Vec<BusState>,
    pub fx: Vec<FxState>,
    pub instruments: Vec<InstrumentState>,
    /// The output patch bay.
    pub outputs: Vec<OutputPatch>,
    pub master: MasterState,
    /// Strip numbers below this are spent: the strips that bore them are gone.
    pub strip_mark: u64,
    /// Instrument numbers below this are spent.
    pub instrument_mark: u64,
}

/// What the document holds.
#[verifier::ext_equal]
pub ghost struct MixerView {
    pub strips: Seq<StripView>,
    pub buses: Seq<BusView>,
    pub fx: Seq<FxView>,
    pub instruments: Seq<InstrumentView>,
    pub outputs: Seq<PatchView>,
    pub master: MasterState,
    pub strip_mark: u64,
    pub instrument_mark: u64,
}

/// The identifiers of the strips, in desk order.
pub open spec fn strip_ids(strips: Seq<StripView>) -> Seq<StripId> {
    Seq::new(strips.len(), |i: int| strips[i].id)
}

/// The identifiers of the buses, in desk order.
pub open spec fn bus_ids(buses: Seq<BusView>) -> Seq<BusId> {
    Seq::new(buses.len(), |i: int| buses[i].id)
}

/// The identifiers of the effects units, in desk order.
pub open spec fn fx_ids(fx: Seq<FxView>) -> Seq<FxId> {
    Seq::new(fx.len(), |i: int| fx[i].id)
}

/// The identifiers of the instruments, in rack order.
pub open spec fn instrument_ids(instruments: Seq<InstrumentView>) -> Seq<InstrumentId> {
    Seq::new(instruments.len(), |i: int| instruments[i].id)
}

/// The jacks that the patches own, in patch order.
pub open spec fn jacks(outputs: Seq<PatchView>) -> Seq<JackView> {
    Seq::new(outputs.len(), |i: int| outputs[i].jack_of())
}

/// The numbers of the strips.
pub open spec fn strip_numbers(strips: Seq<StripView>) -> Seq<u32> {
    Seq::new(strips.len(), |i: int| strips[i].id.0)
}

/// The numbers of the buses.
pub open spec fn bus_numbers(buses: Seq<BusView>) -> Seq<u32> {
    Seq::new(buses.len(), |i: int| buses[i].id.0)
}

/// The numbers of the instruments.
pub open spec fn instrument_numbers(instruments: Seq<InstrumentView>) -> Seq<u32> {
    Seq::new(instruments.len(), |i: int| instruments[i].id.0)
}

impl MixerView {
    /// Where the strip with that id stands. Should two share an id, the first
    /// is meant; the same holds of the other lookups.
    pub open spec fn strip_at(self, id: StripId) -> Option<int> {
        strip_ids(self.strips).index_of_first(id)
    }

    pub open spec fn bus_at(self, id: BusId) -> Option<int> {
        bus_ids(self.buses).index_of_first(id)
    }

    pub open spec fn fx_at(self, id: FxId) -> Option<int> {
        fx_ids(self.fx).index_of_first(id)
    }

    pub open spec fn instrument_at(self, id: InstrumentId) -> Option<int> {
        instrument_ids(self.instruments).index_of_first(id)
    }

    pub open spec fn output_at(self, jack: JackView) -> Option<int> {
        jacks(self.outputs).index_of_first(jack)
    }

    /// The number of the next strip: past every strip there is and every one that
    /// was removed.
    pub open spec fn next_strip(self) -> int {
        next_number(self.strip_mark, strip_numbers(self.strips))
    }

    /// The number of the next instrument: past every instrument there is and every
    /// one that was removed.
    pub open spec fn next_instrument(self) -> int {
        next_number(self.instrument_mark, instrument_numbers(self.instruments))
    }

    /// How many channels a source offers; `None` if it is not in the document.
    pub open spec fn source_width(self, source: OutputSource) -> Option<u16> {
        match source {
            OutputSource::Strip { id } => match self.strip_at(id) {
                Some(_) => Some(1u16),
                None => None,
            },
            OutputSource::Bus { id } => match self.bus_at(id) {
                Some(i) => Some(
                    match self.buses[i].kind {
                        BusKind::Group => 2u16,
                        BusKind::Aux => 1u16,
                    },
                ),
                None => None,
            },
            OutputSource::Master => Some(2u16),
        }
    }
}

impl View for MixerState {
    type V = MixerView;

    open spec fn view(&self) -> MixerView {
        MixerView {
            strips: views(self.strips@),
            buses: views(self.buses@),
            fx: views(self.fx@),
            instruments: views(self.instruments@),
            outputs: views(self.outputs@),
            master: self.master,
            strip_mark: self.strip_mark,
            instrument_mark: self.instrument_mark,
        }
    }
}

/// A mark, raised past a number that is spent.
pub open spec fn raised(mark: u64, spent: u32) -> u64 {
    if mark > spent {
        mark
    } else {
        (spent + 1) as u64
    }
}

/// Raises a mark past a number that is spent.
pub fn raise(mark: u64, spent: u32) -> (to: u64)
    ensures
        to == raised(mark, spent),
{
    if mark > spent as u64 {
        mark
    } else {
        spent as u64 + 1
    }
}

impl Clone for MixerState {
    fn clone(&self) -> (copy: MixerState)
        ensures
            copy@ == self@,
    {
        let copy = MixerState {
            strips: self.strips.clone(),
            buses: self.buses.clone(),
            fx: self.fx.clone(),
            instruments: self.instruments.clone(),
            outputs: self.outputs.clone(),
            master: self.master,
            strip_mark: self.strip_mark,
            instrument_mark: self.instrument_mark,
        };
        assert(copy@ =~= self@);
        copy
    }
}

impl Default for MixerState {
    fn default() -> (state: MixerState)
        ensures
            state@ == (MixerView {
                strips: Seq::empty(),
                buses: Seq::empty(),
                fx: Seq::empty(),
                instruments: Seq::empty(),
                outputs: Seq::empty(),
                master: MasterState { fader_db: Single { bits: 0 }, record_arm: false },
                strip_mark: 0,
                instrument_mark: 0,
            }),
    {
        let state = MixerState {
            strips: Vec::new(),
            buses: Vec::new(),
            fx: Vec::new(),
            instruments: Vec::new(),
            outputs: Vec::new(),
            master: MasterState::default(),
            strip_mark: 0,
            instrument_mark: 0,
        };
        assert(views(state.strips@) =~= Seq::<StripView>::empty());
        assert(views(state.buses@) =~= Seq::<BusView>::empty());
        assert(views(state.fx@) =~= Seq::<FxView>::empty());
        assert(views(state.instruments@) =~= Seq::<InstrumentView>::empty());
        assert(views(state.outputs@) =~= Seq::<PatchView>::empty());
        state
    }
}

/// The index of the first strip with that id.
pub fn find_strip(strips: &Vec<StripState>, id: StripId) -> (at: Option<usize>)
    ensures
        index_of(at) == strip_ids(views(strips@)).index_of_first(id),
        at matches Some(i) ==> i < strips@.len() && strips@[i as int].id == id,
{
    let ghost ids = strip_ids(views(strips@));
    let mut i: usize = 0;
    while i < strips.len()
        invariant
            ids == strip_ids(views(strips@)),
            i <= strips.len(),
            forall|j: int| 0 <= j < i ==> ids[j] != id,
        decreases strips.len() - i,
    {
        if strips[i].id == id {
            proof {
                lemma_first(ids, id, i as int);
            }
            return Some(i);
        }
        i = i + 1;
    }
    proof {
        lemma_absent(ids, id);
    }
    None
}

/// The index of the first bus with that id.
pub fn find_bus(buses: &Vec<BusState>, id: BusId) -> (at: Option<usize>)
    ensures
        index_of(at) == bus_ids(views(buses@)).index_of_first(id),
        at matches Some(i) ==> i < buses@.len() && buses@[i as int].id == id,
{
    let ghost ids = bus_ids(views(buses@));
    let mut i: usize = 0;
    while i < buses.len()
        invariant
            ids == bus_ids(views(buses@)),
            i <= buses.len(),
            forall|j: int| 0 <= j < i ==> ids[j] != id,
        decreases buses.len() - i,
    {
        if buses[i].id == id {
            proof {
                lemma_first(ids, id, i as int);
            }
            return Some(i);
        }
        i = i + 1;
    }
    proof {
        lemma_absent(ids, id);
    }
    None
}

/// The index of the first effects unit with that id.
pub fn find_fx(fx: &Vec<FxState>, id: FxId) -> (at: Option<usize>)
    ensures
        index_of(at) == fx_ids(views(fx@)).index_of_first(id),
        at matches Some(i) ==> i < fx@.len() && fx@[i as int].id == id,
{
    let ghost ids = fx_ids(views(fx@));
    let mut i: usize = 0;
    while i < fx.len()
        invariant
            ids == fx_ids(views(fx@)),
            i <= fx.len(),
            forall|j: int| 0 <= j < i ==> ids[j] != id,
        decreases fx.len() - i,
    {
        if fx[i].id == id {
            proof {
                lemma_first(ids, id, i as int);
            }
            return Some(i);
        }
        i = i + 1;
    }
    proof {
        lemma_absent(ids, id);
    }
    None
}

/// The index of the first instrument with that id.
pub fn find_instrument(instruments: &Vec<InstrumentState>, id: InstrumentId) -> (at: Option<usize>)
    ensures
        index_of(at) == instrument_ids(views(instruments@)).index_of_first(id),
        at matches Some(i) ==> i < instruments@.len() && instruments@[i as int].id == id,
{
    let ghost ids = instrument_ids(views(instruments@));
    let mut i: usize = 0;
    while i < instruments.len()
        invariant
            ids == instrument_ids(views(instruments@)),
            i <= instruments.len(),
            forall|j: int| 0 <= j < i ==> ids[j] != id,
        decreases instruments.len() - i,
    {
        if instruments[i].id == id {
            proof {
                lemma_first(ids, id, i as int);
            }
            return Some(i);
        }
        i = i + 1;
    }
    proof {
        lemma_absent(ids, id);
    }
    None
}

/// The index of the first patch on that jack.
pub fn find_output(outputs: &Vec<OutputPatch>, jack: &OutputJack) -> (at: Option<usize>)
    ensures
        index_of(at) == jacks(views(outputs@)).index_of_first(jack@),
        at matches Some(i) ==> i < outputs@.len() && outputs@[i as int]@.jack_of() == jack@,
{
    let ghost owned = jacks(views(outputs@));
    let mut i: usize = 0;
    while i < outputs.len()
        invariant
            owned == jacks(views(outputs@)),
            i <= outputs.len(),
            forall|j: int| 0 <= j < i ==> owned[j] != jack@,
        decreases outputs.len() - i,
    {
        if outputs[i].is(jack) {
            proof {
                lemma_first(owned, jack@, i as int);
            }
            return Some(i);
        }
        i = i + 1;
    }
    proof {
        lemma_absent(owned, jack@);
    }
    None
}

impl MixerState {
    /// The strip with that id.
    pub fn strip(&self, id: StripId) -> (found: Option<&StripState>)
        ensures
            match self@.strip_at(id) {
                Some(i) => found is Some && found->0@ == self@.strips[i],
                None => found is None,
            },
    {
        match find_strip(&self.strips, id) {
            Some(i) => Some(&self.strips[i]),
            None => None,
        }
    }

    /// The bus with that id.
    pub fn bus(&self, id: BusId) -> (found: Option<&BusState>)
        ensures
            match self@.bus_at(id) {
                Some(i) => found is Some && found->0@ == self@.buses[i],
                None => found is None,
            },
    {
        match find_bus(&self.buses, id) {
            Some(i) => Some(&self.buses[i]),
            None => None,
        }
    }

    /// The instrument with that id.
    pub fn instrument(&self, id: InstrumentId) -> (found: Option<&InstrumentState>)
        ensures
            match self@.instrument_at(id) {
                Some(i) => found is Some && found->0@ == self@.instruments[i],
                None => found is None,
            },
    {
        match find_instrument(&self.instruments, id) {
            Some(i) => Some(&self.instruments[i]),
            None => None,
        }
    }

    /// The patch on a jack, if any.
    pub fn output(&self, jack: &OutputJack) -> (found: Option<&OutputPatch>)
        ensures
            match self@.output_at(jack@) {
                Some(i) => found is Some && found->0@ == self@.outputs[i],
                None => found is None,
            },
    {
        match find_output(&self.outputs, jack) {
            Some(i) => Some(&self.outputs[i]),
            None => None,
        }
    }

    /// How many channels a source offers, or `None` if it is not in the
    /// document: a strip is mono, a group and the master are stereo, an aux
    /// collects mono sends.
    pub fn source_channels(&self, source: &OutputSource) -> (width: Option<u16>)
        ensures
            width == self@.source_width(*source),
    {
        match source {
            OutputSource::Strip { id } => match find_strip(&self.strips, *id) {
                Some(_) => Some(1),
                None => None,
            },
            OutputSource::Bus { id } => match find_bus(&self.buses, *id) {
                Some(i) => match self.buses[i].kind {
                    BusKind::Group => Some(2),
                    BusKind::Aux => Some(1),
                },
                None => None,
            },
            OutputSource::Master => Some(2),
        }
    }

    /// The next unused strip id. Ids are never used again within a project: this is
    /// past the highest in use and past every one that was removed.
    pub fn next_strip_id(&self) -> (id: StripId)
        requires
            self@.next_strip() <= u32::MAX,
        ensures
            id.0 == self@.next_strip(),
    {
        let ghost numbers = strip_numbers(self@.strips);
        let mut next: u32 = 0;
        let mut i: usize = 0;
        proof {
            next_free_is_unused(numbers);
            assert(numbers.take(0) =~= Seq::<u32>::empty());
        }
        while i < self.strips.len()
            invariant
                numbers == strip_numbers(self@.strips),
                forall|j: int| 0 <= j < numbers.len() ==> (#[trigger] numbers[j]) < u32::MAX,
                i <= self.strips.len(),
                next == next_free(numbers.take(i as int)),
            decreases self.strips.len() - i,
        {
            proof {
                assert(numbers.take(i + 1).drop_last() =~= numbers.take(i as int));
                assert(numbers[i as int] == self.strips@[i as int].id.0);
            }
            let after: u32 = self.strips[i].id.0 + 1;
            if after > next {
                next = after;
            }
            i = i + 1;
        }
        assert(numbers.take(i as int) =~= numbers);
        if self.strip_mark > next as u64 {
            StripId(self.strip_mark as u32)
        } else {
            StripId(next)
        }
    }

    /// The next unused bus id: one past the highest in use.
    pub fn next_bus_id(&self) -> (id: BusId)
        requires
            next_free(bus_numbers(self@.buses)) <= u32::MAX,
        ensures
            id.0 == next_free(bus_numbers(self@.buses)),
    {
        let ghost numbers = bus_numbers(self@.buses);
        let mut next: u32 = 0;
        let mut i: usize = 0;
        proof {
            next_free_is_unused(numbers);
            assert(numbers.take(0) =~= Seq::<u32>::empty());
        }
        while i < self.buses.len()
            invariant
                numbers == bus_numbers(self@.buses),
                forall|j: int| 0 <= j < numbers.len() ==> (#[trigger] numbers[j]) < u32::MAX,
                i <= self.buses.len(),
                next == next_free(numbers.take(i as int)),
            decreases self.buses.len() - i,
        {
            proof {
                assert(numbers.take(i + 1).drop_last() =~= numbers.take(i as int));
                assert(numbers[i as int] == self.buses@[i as int].id.0);
            }
            let after: u32 = self.buses[i].id.0 + 1;
            if after > next {
                next = after;
            }
            i = i + 1;
        }
        assert(numbers.take(i as int) =~= numbers);
        BusId(next)
    }

    /// The next unused instrument id. Ids are never used again within a project: this is
    /// past the highest in use and past every one that was removed.
    pub fn next_instrument_id(&self) -> (id: InstrumentId)
        requires
            self@.next_instrument() <= u32::MAX,
        ensures
            id.0 == self@.next_instrument(),
    {
        let ghost numbers = instrument_numbers(self@.instruments);
        let mut next: u32 = 0;
        let mut i: usize = 0;
        proof {
            next_free_is_unused(numbers);
            assert(numbers.take(0) =~= Seq::<u32>::empty());
        }
        while i < self.instruments.len()
            invariant
                numbers == instrument_numbers(self@.instruments),
                forall|j: int| 0 <= j < numbers.len() ==> (#[trigger] numbers[j]) < u32::MAX,
                i <= self.instruments.len(),
                next == next_free(numbers.take(i as int)),
            decreases self.instruments.len() - i,
        {
            proof {
                assert(numbers.take(i + 1).drop_last() =~= numbers.take(i as int));
                assert(numbers[i as int] == self.instruments@[i as int].id.0);
            }
            let after: u32 = self.instruments[i].id.0 + 1;
            if after > next {
                next = after;
            }
            i = i + 1;
        }
        assert(numbers.take(i as int) =~= numbers);
        if self.instrument_mark > next as u64 {
            InstrumentId(self.instrument_mark as u32)
        } else {
            InstrumentId(next)
        }
    }
}

} // verus!
