//! Virtual instruments and the keyboard splits that put them on the desk.

use vstd::prelude::*;

use crate::console::id::InstrumentId;
use crate::seqs::views;
use crate::text::copy_optional_text;
use crate::text::joined;
use crate::text::same_text;
use crate::text::text_of;
use crate::text::texts_of;

verus! {

/// Voices a fresh instrument may hold at once.
pub const DEFAULT_POLYPHONY: u16 = 32;

/// One MIDI message as it was applied, stamped with where in the take it
/// happened.
#[derive(Debug, Clone, Copy, PartialEq, Eq, Structural)]
pub struct CapturedMidi {
    /// Samples since the take started.
    pub sample: u64,
    /// Which rack slot produced it.
    pub instrument: u16,
    /// Status nibble, channel already stripped.
    pub status: u8,
    pub data1: u8,
    pub data2: u8,
}

/// One mixer channel of a split instrument: a named slice of the keyboard.
///
/// The ranges are a list because the General MIDI drum map interleaves toms
/// and hi-hats, so one contiguous range cannot part them.
#[derive(Debug, PartialEq, Eq)]
pub struct InstrumentSplit {
    pub name: String,
    /// Inclusive key ranges this channel answers to.
    pub ranges: Vec<(u8, u8)>,
}

/// What a split holds.
#[verifier::ext_equal]
pub ghost struct SplitView {
    pub name: Seq<char>,
    pub ranges: Seq<(u8, u8)>,
}

impl SplitView {
    /// Whether some range holds `key`.
    pub open spec fn covers_key(self, key: u8) -> bool {
        exists|i: int|
            0 <= i < self.ranges.len() && (#[trigger] self.ranges[i]).0 <= key <= self.ranges[i].1
    }
}

impl View for InstrumentSplit {
    type V = SplitView;

    open spec fn view(&self) -> SplitView {
        SplitView { name: self.name@, ranges: self.ranges@ }
    }
}

fn copy_ranges(ranges: &[(u8, u8)]) -> (copy: Vec<(u8, u8)>)
    ensures
        copy@ == ranges@,
{
    let mut copy: Vec<(u8, u8)> = Vec::new();
    let mut i: usize = 0;
    while i < ranges.len()
        invariant
            i <= ranges.len(),
            copy@ == ranges@.take(i as int),
        decreases ranges.len() - i,
    {
        copy.push((ranges[i].0, ranges[i].1));
        i = i + 1;
    }
    assert(copy@ =~= ranges@);
    copy
}

impl Clone for InstrumentSplit {
    fn clone(&self) -> (copy: InstrumentSplit)
        ensures
            copy@ == self@,
    {
        InstrumentSplit { name: self.name.clone(), ranges: copy_ranges(self.ranges.as_slice()) }
    }
}

impl InstrumentSplit {
    /// A split of that name over those ranges.
    pub fn new(name: &str, ranges: &[(u8, u8)]) -> (split: InstrumentSplit)
        ensures
            split@ == (SplitView { name: name@, ranges: ranges@ }),
    {
        InstrumentSplit { name: name.to_owned(), ranges: copy_ranges(ranges) }
    }

    /// Whether this channel answers to `key`.
    pub fn covers(&self, key: u8) -> (covers: bool)
        ensures
            covers == self@.covers_key(key),
    {
        let mut i: usize = 0;
        while i < self.ranges.len()
            invariant
                i <= self.ranges.len(),
                forall|j: int|
                    0 <= j < i ==> !((#[trigger] self@.ranges[j]).0 <= key <= self@.ranges[j].1),
            decreases self.ranges.len() - i,
        {
            if self.ranges[i].0 <= key && key <= self.ranges[i].1 {
                assert(self@.ranges[i as int].0 <= key <= self@.ranges[i as int].1);
                return true;
            }
            i = i + 1;
        }
        false
    }
}

/// The General MIDI drum map, grouped the way a desk is.
pub open spec fn gm_drum_map() -> Seq<SplitView> {
    seq![
        SplitView { name: "Kick"@, ranges: seq![(35u8, 36u8)] },
        SplitView { name: "Snare"@, ranges: seq![(37u8, 40u8)] },
        SplitView {
            name: "Toms"@,
            ranges: seq![(41u8, 41u8), (43u8, 43u8), (45u8, 45u8), (47u8, 48u8), (50u8, 50u8)],
        },
        SplitView { name: "HiHat"@, ranges: seq![(42u8, 42u8), (44u8, 44u8), (46u8, 46u8)] },
        SplitView { name: "Cymbals"@, ranges: seq![(49u8, 49u8), (51u8, 59u8)] },
        SplitView { name: "Percussion"@, ranges: seq![(60u8, 81u8)] },
    ]
}

/// The splits of a General MIDI drum kit: the groups an engineer reaches for.
pub fn gm_drum_splits() -> (splits: Vec<InstrumentSplit>)
    ensures
        views(splits@) == gm_drum_map(),
{
    let mut splits: Vec<InstrumentSplit> = Vec::new();
    splits.push(InstrumentSplit { name: "Kick".to_owned(), ranges: vec![(35u8, 36u8)] });
    splits.push(InstrumentSplit { name: "Snare".to_owned(), ranges: vec![(37u8, 40u8)] });
    splits.push(
        InstrumentSplit {
            name: "Toms".to_owned(),
            ranges: vec![(41u8, 41u8), (43u8, 43u8), (45u8, 45u8), (47u8, 48u8), (50u8, 50u8)],
        },
    );
    splits.push(
        InstrumentSplit {
            name: "HiHat".to_owned(),
            ranges: vec![(42u8, 42u8), (44u8, 44u8), (46u8, 46u8)],
        },
    );
    splits.push(
        InstrumentSplit { name: "Cymbals".to_owned(), ranges: vec![(49u8, 49u8), (51u8, 59u8)] },
    );
    splits.push(InstrumentSplit { name: "Percussion".to_owned(), ranges: vec![(60u8, 81u8)] });
    assert(views(splits@) =~~= gm_drum_map());
    splits
}

/// A virtual instrument: a SoundFont, a preset within it, and the MIDI
/// traffic it answers to.
#[derive(Debug, PartialEq, Eq)]
pub struct InstrumentState {
    pub id: InstrumentId,
    pub name: String,
    /// A file name within the soundfont library, never a path. `None` is
    /// silence with a reason.
    pub soundfont: Option<String>,
    pub bank: u16,
    pub program: u8,
    /// MIDI source port, by name. `None` is bound to nothing.
    pub port: Option<String>,
    /// `None` is omni: every channel on that port.
    pub midi_channel: Option<u8>,
    pub polyphony: u16,
    /// The synthesiser's own reverb and chorus.
    pub effects: bool,
    /// Per-drum mixer channels. Empty is one stereo output.
    pub splits: Vec<InstrumentSplit>,
}

/// What an instrument holds.
#[verifier::ext_equal]
pub ghost struct InstrumentView {
    pub id: InstrumentId,
    pub name: Seq<char>,
    pub soundfont: Option<Seq<char>>,
    pub bank: u16,
    pub program: u8,
    pub port: Option<Seq<char>>,
    pub midi_channel: Option<u8>,
    pub polyphony: u16,
    pub effects: bool,
    pub splits: Seq<SplitView>,
}

impl InstrumentView {
    /// Whether the instrument listens to `port` on `channel`. One that is
    /// bound to no port listens to nothing.
    pub open spec fn listens(self, port: Seq<char>, channel: u8) -> bool {
        self.port == Some(port) && (self.midi_channel is None || self.midi_channel == Some(channel))
    }

    /// Mixer channels: one mono channel per split, or the stereo pair.
    pub open spec fn width(self) -> nat {
        if self.splits.len() == 0 {
            2
        } else {
            self.splits.len()
        }
    }

    /// Rack slots: one synthesiser per split, or a single stereo one.
    pub open spec fn slots(self) -> nat {
        if self.splits.len() == 0 {
            1
        } else {
            self.splits.len()
        }
    }

    /// What each channel is called on the tape.
    pub open spec fn names(self) -> Seq<Seq<char>> {
        if self.splits.len() == 0 {
            seq![self.name + " L"@, self.name + " R"@]
        } else {
            Seq::new(self.splits.len(), |i: int| self.name + " "@ + self.splits[i].name)
        }
    }
}

impl View for InstrumentState {
    type V = InstrumentView;

    open spec fn view(&self) -> InstrumentView {
        InstrumentView {
            id: self.id,
            name: self.name@,
            soundfont: text_of(self.soundfont),
            bank: self.bank,
            program: self.program,
            port: text_of(self.port),
            midi_channel: self.midi_channel,
            polyphony: self.polyphony,
            effects: self.effects,
            splits: views(self.splits@),
        }
    }
}

impl Clone for InstrumentState {
    fn clone(&self) -> (copy: InstrumentState)
        ensures
            copy@ == self@,
    {
        let splits: Vec<InstrumentSplit> = self.splits.clone();
        assert(views(splits@) =~= views(self.splits@));
        InstrumentState {
            id: self.id,
            name: self.name.clone(),
            soundfont: copy_optional_text(&self.soundfont),
            bank: self.bank,
            program: self.program,
            port: copy_optional_text(&self.port),
            midi_channel: self.midi_channel,
            polyphony: self.polyphony,
            effects: self.effects,
            splits,
        }
    }
}

/// A fresh instrument: named, but pointed at nothing.
pub open spec fn fresh_instrument(id: InstrumentId, name: Seq<char>) -> InstrumentView {
    InstrumentView {
        id,
        name,
        soundfont: None,
        bank: 0,
        program: 0,
        port: None,
        midi_channel: None,
        polyphony: DEFAULT_POLYPHONY,
        effects: false,
        splits: Seq::empty(),
    }
}

impl InstrumentState {
    /// Whether this instrument listens to `port` on `channel`.
    pub fn accepts(&self, port: &str, channel: u8) -> (accepts: bool)
        ensures
            accepts == self@.listens(port@, channel),
    {
        let bound: bool = match &self.port {
            Some(own) => same_text(own.as_str(), port),
            None => false,
        };
        let heard: bool = match self.midi_channel {
            Some(own) => own == channel,
            None => true,
        };
        bound && heard
    }

    /// A fresh instrument.
    pub fn new(id: InstrumentId, name: String) -> (instrument: InstrumentState)
        ensures
            instrument@ == fresh_instrument(id, name@),
    {
        let splits: Vec<InstrumentSplit> = Vec::new();
        assert(views(splits@) =~= Seq::<SplitView>::empty());
        InstrumentState {
            id,
            name,
            soundfont: None,
            bank: 0,
            program: 0,
            port: None,
            midi_channel: None,
            polyphony: DEFAULT_POLYPHONY,
            effects: false,
            splits,
        }
    }

    /// Mixer channels this instrument occupies.
    pub fn channels(&self) -> (channels: usize)
        ensures
            channels == self@.width(),
    {
        if self.splits.len() == 0 {
            2
        } else {
            self.splits.len()
        }
    }

    /// Rack slots this instrument occupies.
    pub fn channels_slots(&self) -> (slots: usize)
        ensures
            slots == self@.slots(),
    {
        if self.splits.len() == 0 {
            1
        } else {
            self.splits.len()
        }
    }

    /// What each channel should be called on the tape.
    pub fn channel_names(&self) -> (names: Vec<String>)
        ensures
            texts_of(names@) == self@.names(),
    {
        let mut names: Vec<String> = Vec::new();
        if self.splits.len() == 0 {
            names.push(joined(self.name.as_str(), " L", ""));
            names.push(joined(self.name.as_str(), " R", ""));
            proof {
                reveal_strlit("");
                assert(names@[0]@ =~= self.name@ + " L"@);
                assert(names@[1]@ =~= self.name@ + " R"@);
                assert(texts_of(names@) =~= self@.names());
            }
            return names;
        }
        let mut i: usize = 0;
        while i < self.splits.len()
            invariant
                i <= self.splits.len(),
                names@.len() == i,
                forall|j: int|
                    0 <= j < i ==> (#[trigger] names@[j])@ == self.name@ + " "@
                        + self.splits@[j].name@,
            decreases self.splits.len() - i,
        {
            names.push(joined(self.name.as_str(), " ", self.splits[i].name.as_str()));
            i = i + 1;
        }
        assert(texts_of(names@) =~= self@.names());
        names
    }
}

/// Every instrument has a name for each of its channels, and no others.
pub proof fn a_name_for_every_channel(instrument: InstrumentView)
    ensures
        instrument.names().len() == instrument.width(),
{
}

} // verus!
