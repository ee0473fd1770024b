//! A table of attached devices that the audio thread keeps, filled and emptied
//! through a ring. What is detached goes back through another: the audio
//! thread drops nothing itself.

use vstd::prelude::*;

use crate::engine::outbox::lemma_carried_on;
use crate::engine::outbox::lemma_stood_still;
use crate::engine::outbox::Outbox;
use crate::engine::ring::Origin;
use crate::engine::ring::RingRx;
use crate::engine::ring::RingTx;

verus! {

/// A device that occupies a range of a frame.
pub trait Placed {
    /// Where the device's range starts.
    spec fn place(&self) -> u16;

    /// How wide the device's range is.
    spec fn width(&self) -> u16;

    /// Where the device's range starts.
    fn offset(&self) -> (offset: u16)
        ensures
            offset == self.place(),
    ;

    /// How wide the device's range is.
    fn channels(&self) -> (channels: u16)
        ensures
            channels == self.width(),
    ;
}

/// What the control side asks of a bay.
pub enum BayCmd<A> {
    Attach(Box<A>),
    /// The offset names the device: no two share one.
    Detach { offset: u16 },
}

/// A table of attached devices.
#[verifier::reject_recursive_types(A)]
pub struct Bay<A> {
    slots: Vec<Option<Box<A>>>,
    outbox: Outbox<Box<A>>,
    cmd_rx: RingRx<BayCmd<A>>,
    /// Channels of the frame that the devices share.
    frame: usize,
    /// Commands that one call obeys.
    budget: usize,
}

/// What a bay holds.
#[verifier::ext_equal]
pub ghost struct BayView<A> {
    pub slots: Seq<Option<A>>,
    /// Everything that the bay gave back, in order.
    pub handed: Seq<A>,
    pub frame: usize,
}

/// What is behind a list of slots.
pub open spec fn slots_of<A>(slots: Seq<Option<Box<A>>>) -> Seq<Option<A>> {
    Seq::new(
        slots.len(),
        |i: int|
            match slots[i] {
                Some(device) => Some(*device),
                None => None,
            },
    )
}

/// The first empty slot from `i` on.
pub open spec fn free_from<A>(slots: Seq<Option<A>>, i: int) -> Option<int>
    decreases slots.len() - i,
{
    if i < 0 || i >= slots.len() {
        None
    } else if slots[i] is None {
        Some(i)
    } else {
        free_from(slots, i + 1)
    }
}

/// The first slot from `i` on whose device starts at `offset`.
pub open spec fn held_from<A: Placed>(slots: Seq<Option<A>>, offset: u16, i: int) -> Option<int>
    decreases slots.len() - i,
{
    if i < 0 || i >= slots.len() {
        None
    } else if slots[i] matches Some(device) && device.place() == offset {
        Some(i)
    } else {
        held_from(slots, offset, i + 1)
    }
}

/// The bay after a device is attached: it takes the first empty slot. One that
/// finds none, or that does not fit the frame, is given back.
pub open spec fn attached<A: Placed>(bay: BayView<A>, device: A) -> BayView<A> {
    if device.place() + device.width() > bay.frame {
        BayView { handed: bay.handed.push(device), ..bay }
    } else {
        match free_from(bay.slots, 0) {
            Some(i) => BayView { slots: bay.slots.update(i, Some(device)), ..bay },
            None => BayView { handed: bay.handed.push(device), ..bay },
        }
    }
}

/// The bay after a device is detached. An offset where nothing starts changes
/// nothing.
pub open spec fn detached<A: Placed>(bay: BayView<A>, offset: u16) -> BayView<A> {
    match held_from(bay.slots, offset, 0) {
        Some(i) => BayView {
            slots: bay.slots.update(i, None),
            handed: bay.handed.push(bay.slots[i]->0),
            ..bay
        },
        None => bay,
    }
}

/// The bay after one command.
pub open spec fn bay_after<A: Placed>(bay: BayView<A>, command: BayCmd<A>) -> BayView<A> {
    match command {
        BayCmd::Attach(device) => attached(bay, *device),
        BayCmd::Detach { offset } => detached(bay, offset),
    }
}

/// The bay after the first `n` commands.
pub open spec fn bay_after_all<A: Placed>(
    bay: BayView<A>,
    commands: Seq<BayCmd<A>>,
    n: int,
) -> BayView<A>
    decreases n,
{
    if n <= 0 {
        bay
    } else {
        bay_after(bay_after_all(bay, commands, n - 1), commands[n - 1])
    }
}

/// Whether every attached device fits the frame.
pub open spec fn all_fit<A: Placed>(bay: BayView<A>) -> bool {
    forall|i: int|
        0 <= i < bay.slots.len() ==> ((#[trigger] bay.slots[i]) matches Some(device)
            ==> device.place() + device.width() <= bay.frame)
}

impl<A> View for Bay<A> {
    type V = BayView<A>;

    open spec fn view(&self) -> BayView<A> {
        BayView {
            slots: self.held(),
            handed: self.outbox().entrusted().map_values(|device: Box<A>| *device),
            frame: self.frame(),
        }
    }
}

impl<A> Bay<A> {
    /// The device of every slot.
    pub closed spec fn held(&self) -> Seq<Option<A>> {
        slots_of(self.slots@)
    }

    /// The way back for what is detached.
    pub closed spec fn outbox(&self) -> Outbox<Box<A>> {
        self.outbox
    }

    /// Channels of the frame that the devices share.
    pub closed spec fn frame(&self) -> usize {
        self.frame
    }
}

impl<A: Placed> Bay<A> {
    /// Every command that the bay took, in order.
    pub closed spec fn taken(&self) -> Seq<BayCmd<A>> {
        self.cmd_rx.taken()
    }

    /// How often the bay looked for a command and there was none.
    pub closed spec fn misses(&self) -> nat {
        self.cmd_rx.misses()
    }

    /// The ring that the commands come through, where it was made by this library.
    pub closed spec fn origin(&self) -> Option<Origin> {
        self.cmd_rx.origin()
    }

    /// Whether no device waits to be handed back but one that has just been
    /// refused.
    pub open spec fn cleared(&self) -> bool {
        self.outbox().cleared()
    }

    /// How many commands one call obeys.
    pub closed spec fn budget(&self) -> nat {
        self.budget as nat
    }

    /// An empty bay with so many slots.
    pub fn new(
        cmd_rx: RingRx<BayCmd<A>>,
        retire_tx: RingTx<Box<A>>,
        devices: usize,
        budget: usize,
        frame: usize,
    ) -> (bay: Bay<A>)
        ensures
            bay@ == (BayView {
                slots: Seq::new(devices as nat, |i: int| None::<A>),
                handed: Seq::empty(),
                frame,
            }),
            bay.taken() == cmd_rx.taken(),
            bay.misses() == cmd_rx.misses(),
            bay.origin() == cmd_rx.origin(),
            bay.outbox().origin() == retire_tx.origin(),
            bay.budget() == budget,
            bay.outbox().sent() == retire_tx.sent(),
            bay.outbox().parked() == Seq::<Box<A>>::empty(),
            bay.outbox().places() == devices,
            all_fit(bay@),
    {
        let mut slots: Vec<Option<Box<A>>> = Vec::with_capacity(devices);
        let mut i: usize = 0;
        while i < devices
            invariant
                i <= devices,
                slots@.len() == i,
                forall|j: int| 0 <= j < i ==> (#[trigger] slots@[j]) is None,
            decreases devices - i,
        {
            slots.push(None);
            i = i + 1;
        }
        let bay = Bay {
            slots,
            outbox: Outbox::new(retire_tx, devices),
            cmd_rx,
            frame,
            budget,
        };
        assert(bay@.handed =~= Seq::empty());
        assert(bay@.slots =~= Seq::new(devices as nat, |i: int| None::<A>));
        bay
    }

    fn give_back(&mut self, device: Box<A>)
        ensures
            final(self)@ == (BayView { handed: old(self)@.handed.push(*device), ..old(self)@ }),
            final(self).taken() == old(self).taken(),
            final(self).misses() == old(self).misses(),
            final(self).origin() == old(self).origin(),
            final(self).budget() == old(self).budget(),
            final(self).outbox().carried_on(&old(self).outbox()),
    {
        let ghost before = self@;
        let ghost note = *device;
        self.outbox.retire(device);
        assert(self@.handed =~= before.handed.push(note));
    }

    fn attach(&mut self, device: Box<A>)
        ensures
            final(self)@ == attached(old(self)@, *device),
            final(self).taken() == old(self).taken(),
            final(self).misses() == old(self).misses(),
            final(self).origin() == old(self).origin(),
            final(self).budget() == old(self).budget(),
            final(self).outbox().carried_on(&old(self).outbox()),
    {
        let ghost before = self@;
        let ghost note = *device;
        proof {
            lemma_stood_still(self.outbox);
        }
        if device.offset() as usize + device.channels() as usize > self.frame {
            self.give_back(device);
            return;
        }
        let mut i: usize = 0;
        while i < self.slots.len() && self.slots[i].is_some()
            invariant
                i <= self.slots.len(),
                *self == *old(self),
                self@ == before,
                free_from(before.slots, 0) == free_from(before.slots, i as int),
            decreases self.slots.len() - i,
        {
            i = i + 1;
        }
        if i < self.slots.len() {
            self.slots[i] = Some(device);
            assert(self@.slots =~= before.slots.update(i as int, Some(note)));
        } else {
            self.give_back(device);
        }
    }

    fn detach(&mut self, offset: u16)
        ensures
            final(self)@ == detached(old(self)@, offset),
            final(self).taken() == old(self).taken(),
            final(self).misses() == old(self).misses(),
            final(self).origin() == old(self).origin(),
            final(self).budget() == old(self).budget(),
            final(self).outbox().carried_on(&old(self).outbox()),
    {
        let ghost before = self@;
        proof {
            lemma_stood_still(self.outbox);
        }
        let mut i: usize = 0;
        let mut found: bool = false;
        while i < self.slots.len() && !found
            invariant
                i <= self.slots.len(),
                *self == *old(self),
                self@ == before,
                held_from(before.slots, offset, 0) == held_from(before.slots, offset, i as int),
                found ==> i < self.slots.len() && held_from(before.slots, offset, i as int) == Some(
                    i as int,
                ),
            decreases self.slots.len() - i, (if found { 0int } else { 1int }),
        {
            let here: bool = match &self.slots[i] {
                Some(device) => device.offset() == offset,
                None => false,
            };
            if here {
                found = true;
            } else {
                i = i + 1;
            }
        }
        proof {
            lemma_held_is_there(before.slots, offset, 0);
        }
        if found {
            assert(self.slots@[i as int] is Some);
            let mut outgoing: Option<Box<A>> = None;
            std::mem::swap(&mut self.slots[i], &mut outgoing);
            assert(self@.slots =~= before.slots.update(i as int, None));
            if let Some(device) = outgoing {
                self.give_back(device);
            }
        }
    }

    /// Obeys what is waiting, up to its budget, and hands over what is parked.
    pub fn drain_commands(&mut self)
        requires
            all_fit(old(self)@),
        ensures
            all_fit(final(self)@),
            final(self).cleared(),
            final(self).outbox().carried_on(&old(self).outbox()),
            final(self).origin() == old(self).origin(),
            old(self).taken().is_prefix_of(final(self).taken()),
            final(self).budget() == old(self).budget(),
            ({
                let commands = final(self).taken().skip(old(self).taken().len() as int);
                &&& commands.len() <= old(self).budget()
                &&& final(self).misses() == old(self).misses() + if commands.len() < old(
                    self,
                ).budget() {
                    1nat
                } else {
                    0nat
                }
                &&& final(self)@ == bay_after_all(old(self)@, commands, commands.len() as int)
            }),
    {
        let ghost first = self@;
        let ghost first_box = self.outbox;
        proof {
            lemma_stood_still(first_box);
        }
        let ghost history = self.cmd_rx.taken();
        let ghost misses = self.cmd_rx.misses();
        let ghost origin = self.cmd_rx.origin();
        let ghost mut commands: Seq<BayCmd<A>> = Seq::empty();
        let budget: usize = self.budget;
        let mut left: usize = budget;
        assert(history + commands =~= history);
        while left > 0
            invariant
                left + commands.len() <= budget,
                self.cmd_rx.misses() == misses + if left + commands.len() < budget {
                    1nat
                } else {
                    0nat
                },
                left + commands.len() < budget ==> left == 0,
                self.budget == budget,
                self.outbox.carried_on(&first_box),
                self.cmd_rx.origin() == origin,
                self.cmd_rx.taken() == history + commands,
                all_fit(self@),
                self@ == bay_after_all(first, commands, commands.len() as int),
            decreases left,
        {
            let ghost before = self@;
            let ghost box_before = self.outbox;
            match self.cmd_rx.pop() {
                None => {
                    left = 0;
                },
                Some(command) => {
                    assert(self@ == before);
                    match command {
                        BayCmd::Attach(device) => {
                            self.attach(device);
                        },
                        BayCmd::Detach { offset } => {
                            self.detach(offset);
                        },
                    }
                    proof {
                        lemma_carried_on(first_box, box_before, self.outbox);
                        lemma_stays_fit(before, command);
                        lemma_bay_prefix(first, commands, command, commands.len() as int);
                        assert(self.cmd_rx.taken() =~= history + commands.push(command));
                        commands = commands.push(command);
                        assert(commands[commands.len() - 1] == command);
                    }
                    left = left - 1;
                },
            }
        }
        assert(self.cmd_rx.taken().skip(history.len() as int) =~= commands);
        let ghost obeyed = self.outbox;
        self.outbox.flush();
        proof {
            lemma_carried_on(first_box, obeyed, self.outbox);
        }
    }

    /// How many slots there are.
    pub fn size(&self) -> (size: usize)
        ensures
            size == self@.slots.len(),
    {
        self.slots.len()
    }

    /// The device of a slot, to work with.
    pub fn device_mut(&mut self, i: usize) -> (slot: &mut Option<Box<A>>)
        requires
            i < old(self)@.slots.len(),
        ensures
            slots_of(seq![*slot])[0] == old(self)@.slots[i as int],
            final(self)@ == (BayView {
                slots: old(self)@.slots.update(i as int, slots_of(seq![*final(slot)])[0]),
                ..old(self)@
            }),
            final(self).taken() == old(self).taken(),
            final(self).misses() == old(self).misses(),
            final(self).origin() == old(self).origin(),
            final(self).budget() == old(self).budget(),
            final(self).outbox() == old(self).outbox(),
    {
        &mut self.slots[i]
    }
}

proof fn lemma_free_is_empty<A>(slots: Seq<Option<A>>, i: int)
    requires
        0 <= i,
    ensures
        free_from(slots, i) matches Some(j) ==> i <= j < slots.len() && slots[j] is None,
    decreases slots.len() - i,
{
    if i < slots.len() && slots[i] is Some {
        lemma_free_is_empty(slots, i + 1);
    }
}

proof fn lemma_held_is_there<A: Placed>(slots: Seq<Option<A>>, offset: u16, i: int)
    requires
        0 <= i,
    ensures
        held_from(slots, offset, i) matches Some(j) ==> {
            &&& i <= j < slots.len()
            &&& slots[j] matches Some(device) && device.place() == offset
        },
    decreases slots.len() - i,
{
    if i < slots.len() && !(slots[i] matches Some(device) && device.place() == offset) {
        lemma_held_is_there(slots, offset, i + 1);
    }
}

proof fn lemma_stays_fit<A: Placed>(bay: BayView<A>, command: BayCmd<A>)
    requires
        all_fit(bay),
    ensures
        all_fit(bay_after(bay, command)),
{
    lemma_free_is_empty(bay.slots, 0);
    match command {
        BayCmd::Attach(device) => {},
        BayCmd::Detach { offset } => {
            lemma_held_is_there(bay.slots, offset, 0);
        },
    }
}

proof fn lemma_bay_prefix<A: Placed>(
    bay: BayView<A>,
    commands: Seq<BayCmd<A>>,
    more: BayCmd<A>,
    n: int,
)
    requires
        0 <= n <= commands.len(),
    ensures
        bay_after_all(bay, commands, n) == bay_after_all(bay, commands.push(more), n),
    decreases n,
{
    if n > 0 {
        lemma_bay_prefix(bay, commands, more, n - 1);
    }
}

/// Detaching a device right after attaching it gives it back and leaves the
/// bay as it was, as long as nothing else starts at its offset.
pub proof fn detaching_undoes_attaching<A: Placed>(bay: BayView<A>, device: A)
    requires
        device.place() + device.width() <= bay.frame,
        free_from(bay.slots, 0) is Some,
        held_from(bay.slots, device.place(), 0) is None,
    ensures
        detached(attached(bay, device), device.place()).slots == bay.slots,
        detached(attached(bay, device), device.place()).handed == bay.handed.push(device),
{
    lemma_free_is_empty(bay.slots, 0);
    let i = free_from(bay.slots, 0)->0;
    let slots = bay.slots.update(i, Some(device));
    lemma_only_holder(bay.slots, slots, device, i, 0);
    assert(slots.update(i, None) =~= bay.slots);
}

proof fn lemma_only_holder<A: Placed>(
    before: Seq<Option<A>>,
    after: Seq<Option<A>>,
    device: A,
    i: int,
    from: int,
)
    requires
        0 <= from <= i < before.len(),
        before[i] is None,
        after == before.update(i, Some(device)),
        held_from(before, device.place(), from) is None,
    ensures
        held_from(after, device.place(), from) == Some(i),
    decreases i - from,
{
    if from < i {
        lemma_only_holder(before, after, device, i, from + 1);
    }
}

} // verus!
