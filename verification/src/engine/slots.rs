//! Where each open device's channels sit within one of the engine's
//! fixed-stride frames.

use std::marker::PhantomData;

use vstd::prelude::*;

use crate::seqs::index_of;
use crate::seqs::lemma_absent;
use crate::seqs::lemma_first;
use crate::single::Single;
use crate::text::copy_optional_text;
use crate::text::same_text;
use crate::text::text_of;

verus! {

/// Channels of the input frame. Unassigned ones are silence, so devices open
/// and close without the stride ever moving.
pub const MAX_INPUT_CHANNELS: usize = 64;

/// Channels of the output plane.
pub const MAX_OUTPUT_CHANNELS: usize = 64;

/// Width of the monitor's reserved pair at the head of the output plane.
pub const MONITOR_CHANNELS: u16 = 2;

/// The monitor's reserved pair in the output plane.
pub const MONITOR_OUT: [u16; 2] = [0, 1];

/// Which frame a slot map allocates over. A tag that keeps the two maps apart
/// although their frames have the same width.
pub trait Plane {
    /// Channels in this frame.
    const WIDTH: usize;
}

/// The device input frame.
#[derive(Debug, Clone, Copy, PartialEq, Eq, Structural)]
pub struct Input;

/// The engine output plane.
#[derive(Debug, Clone, Copy, PartialEq, Eq, Structural)]
pub struct Output;

impl Plane for Input {
    const WIDTH: usize = MAX_INPUT_CHANNELS;
}

impl Plane for Output {
    const WIDTH: usize = MAX_OUTPUT_CHANNELS;
}

/// Both frames are as wide as their constants say.
pub proof fn plane_widths()
    ensures
        <Input as Plane>::WIDTH == MAX_INPUT_CHANNELS,
        <Output as Plane>::WIDTH == MAX_OUTPUT_CHANNELS,
{
}

/// An output plane of silence, for one block.
pub fn output_buffer(block_size: usize) -> (plane: Vec<Single>)
    requires
        block_size * MAX_OUTPUT_CHANNELS <= usize::MAX,
    ensures
        plane@ == Seq::new((block_size * MAX_OUTPUT_CHANNELS) as nat, |i: int| Single { bits: 0 }),
{
    vec![Single { bits: 0 }; block_size * MAX_OUTPUT_CHANNELS]
}

/// Slot map over the input frame.
pub type InputSlots = Slots<Input>;

/// Slot map over the output plane.
pub type OutputSlots = Slots<Output>;

#[derive(Debug, Clone, Copy, PartialEq, Eq, Structural)]
pub enum SlotError {
    /// Not enough contiguous space left in the frame.
    Exhausted { needed: u16 },
    /// The device already holds a slot of a different width. Its stream still
    /// feeds the old range, so it must be released before it can be resized.
    WidthChanged { held: u16, wanted: u16 },
}

#[derive(Debug, PartialEq, Eq)]
struct SlotEntry {
    /// `None` is the system default.
    device: Option<String>,
    offset: u16,
    channels: u16,
}

/// One device's range of a frame.
#[verifier::ext_equal]
pub ghost struct SlotView {
    pub device: Option<Seq<char>>,
    pub offset: u16,
    pub channels: u16,
}

impl View for SlotEntry {
    type V = SlotView;

    closed spec fn view(&self) -> SlotView {
        SlotView { device: text_of(self.device), offset: self.offset, channels: self.channels }
    }
}

/// What an optional device name says.
pub open spec fn name_of(device: Option<&str>) -> Option<Seq<char>> {
    match device {
        Some(name) => Some(name@),
        None => None,
    }
}

/// First-fit allocator over a frame. One entry per open device.
#[derive(Debug, PartialEq, Eq)]
pub struct Slots<P> {
    entries: Vec<SlotEntry>,
    /// Channels at the head of the frame that no device may be allocated over.
    reserved: u16,
    plane: PhantomData<P>,
}

/// The devices of the ranges, in the order of the ranges.
pub open spec fn devices_of(ranges: Seq<SlotView>) -> Seq<Option<Seq<char>>> {
    Seq::new(ranges.len(), |i: int| ranges[i].device)
}

/// Where a device's range stands, if it has one.
pub open spec fn range_at(ranges: Seq<SlotView>, device: Option<Seq<char>>) -> Option<int> {
    devices_of(ranges).index_of_first(device)
}

/// The first offset, from the range at `i` on, at which `channels` fit in
/// front of the next range; behind the last range there is no next one.
pub open spec fn first_fit(ranges: Seq<SlotView>, i: int, offset: int, channels: u16) -> int
    decreases ranges.len() - i,
{
    if i < 0 || i >= ranges.len() || offset + channels <= ranges[i].offset {
        offset
    } else {
        first_fit(ranges, i + 1, ranges[i].offset + ranges[i].channels, channels)
    }
}

/// Where a range at `offset` is put: in front of the first that starts later.
pub open spec fn place_for(ranges: Seq<SlotView>, offset: int, i: int) -> int
    decreases ranges.len() - i,
{
    if i < 0 || i >= ranges.len() || ranges[i].offset > offset {
        i
    } else {
        place_for(ranges, offset, i + 1)
    }
}

/// What allocating a range for a device comes to, and the ranges after it. A device
/// that holds a range keeps it. Otherwise the range goes to the first fit, if that ends
/// within the frame and within sixteen bits.
pub open spec fn allocated(
    ranges: Seq<SlotView>,
    reserved: u16,
    width: usize,
    device: Option<Seq<char>>,
    channels: u16,
) -> (Seq<SlotView>, Result<u16, SlotError>) {
    match range_at(ranges, device) {
        Some(i) => (
            ranges,
            if ranges[i].channels == channels {
                Ok(ranges[i].offset)
            } else {
                Err(SlotError::WidthChanged { held: ranges[i].channels, wanted: channels })
            },
        ),
        None => {
            let offset = first_fit(ranges, 0, reserved as int, channels);
            if offset + channels > width || offset + channels > u16::MAX {
                (ranges, Err(SlotError::Exhausted { needed: channels }))
            } else {
                let added = SlotView { device, offset: offset as u16, channels };
                (ranges.insert(place_for(ranges, offset, 0), added), Ok(offset as u16))
            }
        },
    }
}

/// What releasing a device gives back, and the ranges after it.
pub open spec fn released(ranges: Seq<SlotView>, device: Option<Seq<char>>) -> (
    Seq<SlotView>,
    Option<(u16, u16)>,
) {
    match range_at(ranges, device) {
        Some(i) => (ranges.remove(i), Some((ranges[i].offset, ranges[i].channels))),
        None => (ranges, None),
    }
}

impl<P> Slots<P> {
    /// The ranges in use.
    pub closed spec fn ranges(&self) -> Seq<SlotView> {
        Seq::new(self.entries@.len(), |i: int| self.entries@[i]@)
    }

    /// Channels held back at the head of the frame.
    pub closed spec fn held_back(&self) -> u16 {
        self.reserved
    }
}

impl<P> Default for Slots<P> {
    fn default() -> (slots: Slots<P>)
        ensures
            slots.ranges() == Seq::<SlotView>::empty(),
            slots.held_back() == 0,
    {
        let slots = Slots { entries: Vec::new(), reserved: 0, plane: PhantomData };
        assert(slots.ranges() =~= Seq::<SlotView>::empty());
        slots
    }
}

impl<P> Clone for Slots<P> {
    fn clone(&self) -> (copy: Slots<P>)
        ensures
            copy.ranges() == self.ranges(),
            copy.held_back() == self.held_back(),
    {
        let mut entries: Vec<SlotEntry> = Vec::new();
        let mut i: usize = 0;
        while i < self.entries.len()
            invariant
                i <= self.entries.len(),
                entries@.len() == i,
                forall|j: int| 0 <= j < i ==> (#[trigger] entries@[j])@ == self.entries@[j]@,
            decreases self.entries.len() - i,
        {
            let entry: &SlotEntry = &self.entries[i];
            entries.push(
                SlotEntry {
                    device: copy_optional_text(&entry.device),
                    offset: entry.offset,
                    channels: entry.channels,
                },
            );
            i = i + 1;
        }
        let copy = Slots { entries, reserved: self.reserved, plane: PhantomData };
        assert(copy.ranges() =~= self.ranges());
        copy
    }
}

/// Whether every range ends within a frame of that width, and no device has
/// two.
pub open spec fn within_frame(ranges: Seq<SlotView>, width: usize) -> bool {
    &&& forall|i: int|
        0 <= i < ranges.len() ==> {
            &&& (#[trigger] ranges[i]).offset + ranges[i].channels <= width
            &&& ranges[i].offset + ranges[i].channels <= u16::MAX
        }
    &&& forall|i: int, j: int|
        0 <= i < j < ranges.len() ==> (#[trigger] ranges[i]).device != (
        #[trigger] ranges[j]).device
}

impl<P: Plane> Slots<P> {
    /// Every range ends within the frame, and no device has two.
    pub open spec fn wf(&self) -> bool {
        within_frame(self.ranges(), P::WIDTH)
    }

    /// The index of a device's entry.
    fn position(&self, device: Option<&str>) -> (at: Option<usize>)
        ensures
            index_of(at) == range_at(self.ranges(), name_of(device)),
            at matches Some(i) ==> i < self.entries@.len(),
    {
        let ghost devices = devices_of(self.ranges());
        let mut i: usize = 0;
        while i < self.entries.len()
            invariant
                devices == devices_of(self.ranges()),
                i <= self.entries.len(),
                forall|j: int| 0 <= j < i ==> devices[j] != name_of(device),
            decreases self.entries.len() - i,
        {
            let same: bool = match (&self.entries[i].device, device) {
                (Some(own), Some(wanted)) => same_text(own.as_str(), wanted),
                (None, None) => true,
                _ => false,
            };
            assert(same == (devices[i as int] == name_of(device)));
            if same {
                proof {
                    lemma_first(devices, name_of(device), i as int);
                }
                return Some(i);
            }
            i = i + 1;
        }
        proof {
            lemma_absent(devices, name_of(device));
        }
        None
    }

    /// Reserves a contiguous range for `device`. A device that already holds a
    /// range of the same width gets that range; a different width is refused.
    pub fn allocate(&mut self, device: Option<&str>, channels: u16) -> (result: Result<
        u16,
        SlotError,
    >)
        requires
            old(self).wf(),
        ensures
            final(self).wf(),
            final(self).held_back() == old(self).held_back(),
            (final(self).ranges(), result) == allocated(
                old(self).ranges(),
                old(self).held_back(),
                P::WIDTH,
                name_of(device),
                channels,
            ),
    {
        let ghost ranges = self.ranges();
        match self.get(device) {
            Some((offset, held)) => {
                return if held == channels {
                    Ok(offset)
                } else {
                    Err(SlotError::WidthChanged { held, wanted: channels })
                };
            },
            None => {},
        }
        let wanted: u32 = channels as u32;
        let mut offset: u16 = self.reserved;
        let mut i: usize = 0;
        while i < self.entries.len() && offset as u32 + wanted > self.entries[i].offset as u32
            invariant
                ranges == self.ranges(),
                self.wf(),
                wanted == channels,
                i <= self.entries.len(),
                first_fit(ranges, 0, self.held_back() as int, channels) == first_fit(
                    ranges,
                    i as int,
                    offset as int,
                    channels,
                ),
            decreases self.entries.len() - i,
        {
            assert(ranges[i as int] == self.entries@[i as int]@);
            offset = self.entries[i].offset + self.entries[i].channels;
            i = i + 1;
        }
        proof {
            if i < self.entries.len() {
                assert(ranges[i as int] == self.entries@[i as int]@);
            }
        }
        let end: u32 = offset as u32 + wanted;
        if end > 0xFFFF || end as usize > P::WIDTH {
            return Err(SlotError::Exhausted { needed: channels });
        }
        let mut index: usize = 0;
        while index < self.entries.len() && self.entries[index].offset <= offset
            invariant
                ranges == self.ranges(),
                index <= self.entries.len(),
                place_for(ranges, offset as int, 0) == place_for(
                    ranges,
                    offset as int,
                    index as int,
                ),
            decreases self.entries.len() - index,
        {
            assert(ranges[index as int] == self.entries@[index as int]@);
            index = index + 1;
        }
        proof {
            if index < self.entries.len() {
                assert(ranges[index as int] == self.entries@[index as int]@);
            }
        }
        let entry = SlotEntry {
            device: match device {
                Some(name) => Some(name.to_owned()),
                None => None,
            },
            offset,
            channels,
        };
        self.entries.insert(index, entry);
        proof {
            let added = SlotView { device: name_of(device), offset, channels };
            assert(entry@ == added);
            assert(self.ranges() =~= ranges.insert(index as int, added));
            lemma_insert_within(ranges, P::WIDTH, index as int, added);
        }
        Ok(offset)
    }

    /// Frees a device's range and gives back what it held, if anything.
    pub fn release(&mut self, device: Option<&str>) -> (held: Option<(u16, u16)>)
        requires
            old(self).wf(),
        ensures
            final(self).wf(),
            final(self).held_back() == old(self).held_back(),
            (final(self).ranges(), held) == released(old(self).ranges(), name_of(device)),
    {
        let ghost ranges = self.ranges();
        match self.position(device) {
            Some(i) => {
                let entry: SlotEntry = self.entries.remove(i);
                assert(self.ranges() =~= ranges.remove(i as int));
                assert(entry@ == ranges[i as int]);
                Some((entry.offset, entry.channels))
            },
            None => None,
        }
    }

    /// The offset and width of a device's range.
    pub fn get(&self, device: Option<&str>) -> (held: Option<(u16, u16)>)
        ensures
            held == match range_at(self.ranges(), name_of(device)) {
                Some(i) => Some((self.ranges()[i].offset, self.ranges()[i].channels)),
                None => None,
            },
    {
        match self.position(device) {
            Some(i) => {
                assert(self.ranges()[i as int] == self.entries@[i as int]@);
                Some((self.entries[i].offset, self.entries[i].channels))
            },
            None => None,
        }
    }

    /// A patch's index into the frame; `None` for an unknown device or a
    /// channel past its width.
    pub fn resolve(&self, device: Option<&str>, channel: u16) -> (index: Option<u16>)
        requires
            self.wf(),
        ensures
            index == resolved(self.ranges(), name_of(device), channel),
    {
        match self.position(device) {
            Some(i) => {
                assert(self.ranges()[i as int] == self.entries@[i as int]@);
                if channel < self.entries[i].channels {
                    Some(self.entries[i].offset + channel)
                } else {
                    None
                }
            },
            None => None,
        }
    }

    /// Every device with its offset and width, in frame order.
    pub fn devices(&self) -> (list: Vec<(Option<&str>, u16, u16)>)
        ensures
            list@.len() == self.ranges().len(),
            forall|i: int|
                0 <= i < list@.len() ==> name_of((#[trigger] list@[i]).0)
                    == self.ranges()[i].device && list@[i].1 == self.ranges()[i].offset
                    && list@[i].2 == self.ranges()[i].channels,
    {
        let mut list: Vec<(Option<&str>, u16, u16)> = Vec::new();
        let mut i: usize = 0;
        while i < self.entries.len()
            invariant
                i <= self.entries.len(),
                list@.len() == i,
                forall|j: int|
                    0 <= j < i ==> name_of((#[trigger] list@[j]).0) == self.ranges()[j].device
                        && list@[j].1 == self.ranges()[j].offset && list@[j].2
                        == self.ranges()[j].channels,
            decreases self.entries.len() - i,
        {
            let entry: &SlotEntry = &self.entries[i];
            let name: Option<&str> = match &entry.device {
                Some(text) => Some(text.as_str()),
                None => None,
            };
            assert(self.ranges()[i as int] == entry@);
            list.push((name, entry.offset, entry.channels));
            i = i + 1;
        }
        list
    }

    /// A map that holds the system default device alone, at offset 0.
    pub fn single_default(channels: u16) -> (slots: Slots<P>)
        requires
            channels <= P::WIDTH,
        ensures
            slots.wf(),
            slots.held_back() == 0,
            slots.ranges() == seq![SlotView { device: None, offset: 0, channels }],
    {
        let mut slots: Slots<P> = Slots::default();
        proof {
            lemma_absent(devices_of(slots.ranges()), None);
        }
        let placed: Result<u16, SlotError> = slots.allocate(None, channels);
        assert(slots.ranges() =~= seq![SlotView { device: None, offset: 0, channels }]);
        slots
    }
}

impl Slots<Output> {
    /// An empty output plane with the monitor pair held back. The monitor is a
    /// fixed place and no device, so the system default output can be patched
    /// like any other.
    pub fn with_monitor() -> (slots: Slots<Output>)
        ensures
            slots.wf(),
            slots.held_back() == MONITOR_CHANNELS,
            slots.ranges() == Seq::<SlotView>::empty(),
    {
        let slots = Slots { entries: Vec::new(), reserved: MONITOR_CHANNELS, plane: PhantomData };
        assert(slots.ranges() =~= Seq::<SlotView>::empty());
        slots
    }
}

/// The frame index of a device's channel.
pub open spec fn resolved(
    ranges: Seq<SlotView>,
    device: Option<Seq<char>>,
    channel: u16,
) -> Option<u16> {
    match range_at(ranges, device) {
        Some(i) => if channel < ranges[i].channels {
            Some((ranges[i].offset + channel) as u16)
        } else {
            None
        },
        None => None,
    }
}

/// One range more, of a device that has none, stays within the frame.
proof fn lemma_insert_within(ranges: Seq<SlotView>, width: usize, at: int, added: SlotView)
    requires
        within_frame(ranges, width),
        0 <= at <= ranges.len(),
        added.offset + added.channels <= width,
        added.offset + added.channels <= u16::MAX,
        range_at(ranges, added.device) is None,
    ensures
        within_frame(ranges.insert(at, added), width),
{
    let longer = ranges.insert(at, added);
    devices_of(ranges).index_of_first_ensures(added.device);
    assert forall|i: int| 0 <= i < ranges.len() implies (#[trigger] ranges[i]).device
        != added.device by {
        assert(devices_of(ranges)[i] == ranges[i].device);
    }
    assert forall|i: int, j: int| 0 <= i < j < longer.len() implies (#[trigger] longer[i]).device
        != (#[trigger] longer[j]).device by {
        if i != at && j != at {
            let a = if i < at { i } else { i - 1 };
            let b = if j < at { j } else { j - 1 };
            assert(longer[i] == ranges[a] && longer[j] == ranges[b]);
        }
    }
}

/// Ranges that hold something, lie behind the reserved head, stand in order
/// and do not touch one another's channels.
pub open spec fn tidy(ranges: Seq<SlotView>, reserved: int) -> bool {
    &&& forall|i: int|
        0 <= i < ranges.len() ==> (#[trigger] ranges[i]).channels > 0 && ranges[i].offset
            >= reserved
    &&& forall|i: int, j: int|
        0 <= i < j < ranges.len() ==> (#[trigger] ranges[i]).offset + ranges[i].channels <= (
        #[trigger] ranges[j]).offset
}

/// Whether `channels` channels at `offset` would overlap some range.
pub open spec fn collides(ranges: Seq<SlotView>, offset: int, channels: int) -> bool {
    exists|i: int|
        0 <= i < ranges.len() && offset < (#[trigger] ranges[i]).offset + ranges[i].channels
            && ranges[i].offset < offset + channels
}

/// Where the search for a fit ends: in front of the range at `k`.
proof fn lemma_search_ends(
    ranges: Seq<SlotView>,
    reserved: int,
    i: int,
    offset: int,
    channels: u16,
) -> (k: int)
    requires
        tidy(ranges, reserved),
        channels > 0,
        0 <= i <= ranges.len(),
        offset == if i == 0 {
            reserved
        } else {
            ranges[i - 1].offset + ranges[i - 1].channels
        },
        forall|o: int|
            reserved <= o < offset ==> collides(ranges, o, channels as int),
    ensures
        i <= k <= ranges.len(),
        first_fit(ranges, i, offset, channels) == if k == 0 {
            reserved
        } else {
            ranges[k - 1].offset + ranges[k - 1].channels
        },
        k < ranges.len() ==> first_fit(ranges, i, offset, channels) + channels <= ranges[k].offset,
        forall|o: int|
            reserved <= o < first_fit(ranges, i, offset, channels) ==> collides(
                ranges,
                o,
                channels as int,
            ),
    decreases ranges.len() - i,
{
    if i >= ranges.len() || offset + channels <= ranges[i].offset {
        i
    } else {
        let end = ranges[i].offset + ranges[i].channels;
        assert forall|o: int| reserved <= o < end implies collides(
            ranges,
            o,
            channels as int,
        ) by {
            if o >= offset {
                assert(o < ranges[i].offset + ranges[i].channels && ranges[i].offset < o
                    + channels);
            }
        }
        lemma_search_ends(ranges, reserved, i + 1, end, channels)
    }
}

proof fn lemma_place(ranges: Seq<SlotView>, reserved: int, offset: int, k: int, i: int)
    requires
        tidy(ranges, reserved),
        0 <= i <= k <= ranges.len(),
        k > 0 ==> ranges[k - 1].offset + ranges[k - 1].channels <= offset,
        k < ranges.len() ==> offset < ranges[k].offset,
    ensures
        place_for(ranges, offset, i) == k,
    decreases k - i,
{
    if i < k {
        if i < k - 1 {
            assert(ranges[i].offset + ranges[i].channels <= ranges[k - 1].offset);
        }
        lemma_place(ranges, reserved, offset, k, i + 1);
    }
}

/// Allocating keeps every range apart from every other, in order, and off the
/// reserved head.
pub proof fn allocating_keeps_ranges_apart(
    ranges: Seq<SlotView>,
    reserved: int,
    device: Option<Seq<char>>,
    channels: u16,
)
    requires
        tidy(ranges, reserved),
        reserved >= 0,
        channels > 0,
        first_fit(ranges, 0, reserved, channels) + channels <= u16::MAX,
    ensures
        ({
            let offset = first_fit(ranges, 0, reserved, channels);
            tidy(
                ranges.insert(
                    place_for(ranges, offset, 0),
                    SlotView { device, offset: offset as u16, channels },
                ),
                reserved,
            )
        }),
{
    let offset = first_fit(ranges, 0, reserved, channels);
    let k = lemma_search_ends(ranges, reserved, 0, reserved, channels);
    lemma_place(ranges, reserved, offset, k, 0);
    let added = SlotView { device, offset: offset as u16, channels };
    let longer = ranges.insert(k, added);
    assert forall|i: int, j: int| 0 <= i < j < longer.len() implies (#[trigger] longer[i]).offset
        + longer[i].channels <= (#[trigger] longer[j]).offset by {
        let a = if i < k { i } else { i - 1 };
        let b = if j < k { j } else { j - 1 };
        if j == k {
            assert(longer[i] == ranges[i]);
            if i < k - 1 {
                assert(ranges[i].offset + ranges[i].channels <= ranges[k - 1].offset);
            }
        } else if i == k {
            assert(longer[j] == ranges[b]);
            if k < b {
                assert(ranges[k].offset + ranges[k].channels <= ranges[b].offset);
            }
        } else {
            assert(longer[i] == ranges[a] && longer[j] == ranges[b]);
        }
    }
    assert forall|i: int| 0 <= i < longer.len() implies (#[trigger] longer[i]).channels > 0
        && longer[i].offset >= reserved by {
        if i != k {
            let a = if i < k { i } else { i - 1 };
            assert(longer[i] == ranges[a]);
        } else if k > 0 {
            assert(ranges[k - 1].offset >= reserved);
        }
    }
}

/// Releasing keeps the remaining ranges apart.
pub proof fn releasing_keeps_ranges_apart(ranges: Seq<SlotView>, reserved: int, i: int)
    requires
        tidy(ranges, reserved),
        0 <= i < ranges.len(),
    ensures
        tidy(ranges.remove(i), reserved),
{
    let rest = ranges.remove(i);
    assert forall|a: int, b: int| 0 <= a < b < rest.len() implies (#[trigger] rest[a]).offset
        + rest[a].channels <= (#[trigger] rest[b]).offset by {
        let x = if a < i { a } else { a + 1 };
        let y = if b < i { b } else { b + 1 };
        assert(rest[a] == ranges[x] && rest[b] == ranges[y]);
    }
    assert forall|a: int| 0 <= a < rest.len() implies (#[trigger] rest[a]).channels > 0
        && rest[a].offset >= reserved by {
        let x = if a < i { a } else { a + 1 };
        assert(rest[a] == ranges[x]);
    }
}

/// The fit that is found is the lowest place where nothing collides.
pub proof fn the_fit_is_the_lowest(ranges: Seq<SlotView>, reserved: int, channels: u16)
    requires
        tidy(ranges, reserved),
        channels > 0,
    ensures
        ({
            let offset = first_fit(ranges, 0, reserved, channels);
            &&& offset >= reserved
            &&& !collides(ranges, offset, channels as int)
            &&& forall|o: int|
                reserved <= o < offset ==> #[trigger] collides(ranges, o, channels as int)
        }),
{
    let offset = first_fit(ranges, 0, reserved, channels);
    let k = lemma_search_ends(ranges, reserved, 0, reserved, channels);
    if k > 0 {
        assert(ranges[k - 1].offset >= reserved);
    }
    assert forall|i: int| 0 <= i < ranges.len() implies !(offset < (#[trigger] ranges[i]).offset
        + ranges[i].channels && ranges[i].offset < offset + channels) by {
        if i < k - 1 {
            assert(ranges[i].offset + ranges[i].channels <= ranges[k - 1].offset);
        } else if i > k {
            assert(ranges[k].offset + ranges[k].channels <= ranges[i].offset);
        }
    }
}

/// No two channels of two devices share a place in the frame, and none lies
/// on the reserved head.
pub proof fn no_two_channels_share_a_place(
    ranges: Seq<SlotView>,
    reserved: int,
    width: usize,
    a: Option<Seq<char>>,
    i: u16,
    b: Option<Seq<char>>,
    j: u16,
)
    requires
        tidy(ranges, reserved),
        within_frame(ranges, width),
        width <= u16::MAX,
        resolved(ranges, a, i) is Some,
        resolved(ranges, b, j) is Some,
    ensures
        reserved <= resolved(ranges, a, i)->0 < width,
        resolved(ranges, a, i) == resolved(ranges, b, j) ==> a == b && i == j,
{
    devices_of(ranges).index_of_first_ensures(a);
    devices_of(ranges).index_of_first_ensures(b);
    let x = range_at(ranges, a)->0;
    let y = range_at(ranges, b)->0;
    assert(devices_of(ranges)[x] == ranges[x].device);
    assert(devices_of(ranges)[y] == ranges[y].device);
    if x < y {
        assert(ranges[x].offset + ranges[x].channels <= ranges[y].offset);
    } else if y < x {
        assert(ranges[y].offset + ranges[y].channels <= ranges[x].offset);
    }
}

/// Releasing a device undoes allocating it: it gives back the range that was
/// allocated and leaves the ranges as they were before, and released once more it gives
/// back nothing and changes nothing.
pub proof fn releasing_undoes_allocating(
    ranges: Seq<SlotView>,
    reserved: u16,
    width: usize,
    device: Option<Seq<char>>,
    channels: u16,
)
    requires
        range_at(ranges, device) is None,
        allocated(ranges, reserved, width, device, channels).1 is Ok,
    ensures
        ({
            let (longer, offset) = allocated(ranges, reserved, width, device, channels);
            &&& released(longer, device) == (ranges, Some((offset->Ok_0, channels)))
            &&& released(ranges, device) == (ranges, None::<(u16, u16)>)
        }),
{
    let offset = first_fit(ranges, 0, reserved as int, channels);
    let at = place_for(ranges, offset, 0);
    lemma_place_within(ranges, offset, 0);
    let added = SlotView { device, offset: offset as u16, channels };
    let longer = ranges.insert(at, added);
    devices_of(ranges).index_of_first_ensures(device);
    assert forall|i: int| 0 <= i < at implies devices_of(longer)[i] != device by {
        assert(devices_of(ranges)[i] == ranges[i].device);
    }
    lemma_first(devices_of(longer), device, at);
    assert(longer.remove(at) =~= ranges);
}

proof fn lemma_place_within(ranges: Seq<SlotView>, offset: int, i: int)
    requires
        0 <= i <= ranges.len(),
    ensures
        i <= place_for(ranges, offset, i) <= ranges.len(),
    decreases ranges.len() - i,
{
    if i < ranges.len() && ranges[i].offset <= offset {
        lemma_place_within(ranges, offset, i + 1);
    }
}

/// A refused allocation changes nothing.
pub proof fn a_refused_allocation_changes_nothing(
    ranges: Seq<SlotView>,
    reserved: u16,
    width: usize,
    device: Option<Seq<char>>,
    channels: u16,
)
    requires
        allocated(ranges, reserved, width, device, channels).1 is Err,
    ensures
        allocated(ranges, reserved, width, device, channels).0 == ranges,
{
}

} // verus!
