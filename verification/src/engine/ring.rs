//! The two ends of a single-producer single-consumer ring, each with a record
//! of what went through it.
//!
//! What an attempt comes to depends on the thread at the other end, so mostly
//! either outcome is possible; what is certain is what each of them means for
//! this end, and which ring it is an end of.

use std::sync::atomic::AtomicU64;
use std::sync::atomic::Ordering;
use std::sync::Arc;

use vstd::prelude::*;
use vstd::slice::slice_subrange;

verus! {

/// The writing end of an `rtrb` ring.
#[verifier::external_type_specification]
#[verifier::external_body]
#[verifier::reject_recursive_types(T)]
pub struct ExProducer<T>(rtrb::Producer<T>);

/// The reading end of an `rtrb` ring.
#[verifier::external_type_specification]
#[verifier::external_body]
#[verifier::reject_recursive_types(T)]
pub struct ExConsumer<T>(rtrb::Consumer<T>);

/// The largest ring that the library makes by itself: two seconds of
/// interleaved stereo.
pub const MAX_RING: usize = 192_000;

/// More values than any ring is asked for in one go: what is taken until nothing
/// is left is bounded by this.
pub const ENDLESS: u64 = 0xFFFF_FFFF_FFFF_FFFF;

/// Values that are offered one at a time.
pub open spec fn one_by_one<T>(values: Seq<T>) -> Seq<Seq<T>> {
    Seq::new(values.len(), |i: int| seq![values[i]])
}

/// A ring that was made here: which one, and how many values it can hold.
pub ghost struct Origin {
    pub ring: int,
    pub capacity: usize,
}

/// `a` less `b`, or nothing.
pub open spec fn less(a: nat, b: nat) -> nat {
    if a < b {
        0
    } else {
        (a - b) as nat
    }
}

/// The writing end of a ring.
#[verifier::reject_recursive_types(T)]
pub struct RingTx<T> {
    tx: rtrb::Producer<T>,
    sent: Ghost<Seq<T>>,
    offered: Ghost<Seq<Seq<T>>>,
    rooms: Ghost<Seq<usize>>,
    room: Ghost<nat>,
    origin: Ghost<Option<Origin>>,
}

/// What the reading end of a ring was asked, and what it said.
pub ghost enum Look {
    /// How many values could be taken.
    Waiting(usize),
    /// Whether the writing end was gone.
    Abandoned(bool),
    /// Whether nothing could be taken.
    Empty(bool),
}

/// Whether looks are those that tell whether a ring has ended: first whether the
/// writing end is gone, and only if it is, whether nothing is left.
pub open spec fn tell_the_end(looks: Seq<Look>, ended: bool) -> bool {
    if ended {
        looks == seq![Look::Abandoned(true), Look::Empty(true)]
    } else {
        ||| looks == seq![Look::Abandoned(false)]
        ||| looks == seq![Look::Abandoned(true), Look::Empty(false)]
    }
}

/// The reading end of a ring.
#[verifier::reject_recursive_types(T)]
pub struct RingRx<T> {
    rx: rtrb::Consumer<T>,
    taken: Ghost<Seq<T>>,
    misses: Ghost<nat>,
    looks: Ghost<Seq<Look>>,
    waiting: Ghost<nat>,
    origin: Ghost<Option<Origin>>,
}

/// `rtrb::RingBuffer::new` makes the two ends of one empty ring that can hold so
/// many values.
#[verifier::external_body]
fn new_ring<T>(capacity: usize) -> (ends: (RingTx<T>, RingRx<T>))
    requires
        capacity <= MAX_RING,
    ensures
        ends.0.origin() is Some,
        ends.0.capacity() == capacity,
        ends.1.origin() == ends.0.origin(),
        ends.0.sent() == Seq::<T>::empty(),
        ends.0.offered() == Seq::<Seq<T>>::empty(),
        ends.0.rooms() == Seq::<usize>::empty(),
        ends.0.room() == capacity,
        ends.1.taken() == Seq::<T>::empty(),
        ends.1.misses() == 0,
        ends.1.looks() == Seq::<Look>::empty(),
        ends.1.waiting() == 0,
{
    let (tx, rx) = rtrb::RingBuffer::new(capacity);
    (
        RingTx { room: Ghost(arbitrary()), origin: Ghost(arbitrary()), ..RingTx::new(tx) },
        RingRx { origin: Ghost(arbitrary()), ..RingRx::new(rx) },
    )
}

/// `rtrb::Producer::push` puts the value into the ring, or hands the very same
/// value back because the ring is full. Which of the two depends on the reader,
/// who can only make room: where the last look at the room showed some that is not
/// used up, the value goes in.
#[verifier::external_body]
fn push_ring<T>(end: &mut RingTx<T>, value: T) -> (pushed: Result<(), T>)
    ensures
        match pushed {
            Ok(_) => final(end).sent() == old(end).sent().push(value),
            Err(back) => back == value && final(end).sent() == old(end).sent(),
        },
        final(end).offered() == old(end).offered().push(seq![value]),
        final(end).rooms() == old(end).rooms(),
        old(end).room() > 0 ==> pushed is Ok,
        final(end).room() == less(old(end).room(), 1),
        final(end).origin() == old(end).origin(),
{
    match end.tx.push(value) {
        Ok(()) => Ok(()),
        Err(rtrb::PushError::Full(back)) => Err(back),
    }
}

/// `rtrb::Producer::push_entire_slice` puts all of the values into the ring, in
/// order, or none of them because it has too little room. Which of the two depends
/// on the reader, who can only make room.
#[verifier::external_body]
fn push_slice_ring<T: Copy>(end: &mut RingTx<T>, values: &[T]) -> (pushed: bool)
    ensures
        final(end).sent() == if pushed {
            old(end).sent() + values@
        } else {
            old(end).sent()
        },
        final(end).offered() == old(end).offered().push(values@),
        final(end).rooms() == old(end).rooms(),
        old(end).room() >= values@.len() ==> pushed,
        final(end).room() == if pushed {
            less(old(end).room(), values@.len())
        } else {
            old(end).room()
        },
        final(end).origin() == old(end).origin(),
{
    end.tx.push_entire_slice(values).is_ok()
}

/// `rtrb::Producer::slots`: how many values could be pushed now. The reader may
/// have made more room since, but never takes any away.
#[verifier::external_body]
fn free_slots<T>(end: &mut RingTx<T>) -> (room: usize)
    ensures
        final(end).rooms() == old(end).rooms().push(room),
        final(end).room() == room,
        old(end).room() <= room,
        old(end).origin() is Some ==> room <= old(end).capacity(),
        final(end).sent() == old(end).sent(),
        final(end).offered() == old(end).offered(),
        final(end).origin() == old(end).origin(),
{
    end.tx.slots()
}

/// `rtrb::Consumer::pop` takes the next value out of the ring, if there is one.
/// Which value, and whether there is one, depends on the writer, who can only add:
/// where the last look at the ring showed a value that is not taken yet, one comes.
#[verifier::external_body]
fn pop_ring<T>(end: &mut RingRx<T>) -> (popped: Option<T>)
    ensures
        match popped {
            Some(value) => final(end).taken() == old(end).taken().push(value)
                && final(end).misses() == old(end).misses(),
            None => final(end).taken() == old(end).taken() && final(end).misses() == old(
                end,
            ).misses() + 1,
        },
        final(end).looks() == old(end).looks(),
        old(end).waiting() > 0 ==> popped is Some,
        final(end).waiting() == less(old(end).waiting(), 1),
        final(end).origin() == old(end).origin(),
{
    end.rx.pop().ok()
}

/// `rtrb::Consumer::slots`: how many values could be popped now. The writer may
/// have added more since, but never takes any back.
#[verifier::external_body]
fn filled_slots<T>(end: &mut RingRx<T>) -> (waiting: usize)
    ensures
        final(end).looked(old(end), Look::Waiting(waiting)),
        final(end).waiting() == waiting,
        old(end).waiting() <= waiting,
        old(end).origin() is Some ==> waiting <= old(end).capacity(),
{
    end.rx.slots()
}

/// `rtrb::Consumer::is_abandoned`: whether the writing end is gone.
#[verifier::external_body]
fn writer_gone<T>(end: &mut RingRx<T>) -> (gone: bool)
    ensures
        final(end).looked(old(end), Look::Abandoned(gone)),
        final(end).waiting() == old(end).waiting(),
{
    end.rx.is_abandoned()
}

/// `rtrb::Consumer::is_empty`: whether nothing could be popped now.
#[verifier::external_body]
fn nothing_filled<T>(end: &mut RingRx<T>) -> (empty: bool)
    ensures
        final(end).looked(old(end), Look::Empty(empty)),
        old(end).waiting() > 0 ==> !empty,
        final(end).waiting() == if !empty && old(end).waiting() == 0 {
            1
        } else {
            old(end).waiting()
        },
{
    end.rx.is_empty()
}

/// Both ends of a new ring.
pub fn ring<T>(capacity: usize) -> (ends: (RingTx<T>, RingRx<T>))
    requires
        capacity <= MAX_RING,
    ensures
        ends.0.origin() is Some,
        ends.0.capacity() == capacity,
        ends.1.origin() == ends.0.origin(),
        ends.0.sent() == Seq::<T>::empty(),
        ends.0.offered() == Seq::<Seq<T>>::empty(),
        ends.0.rooms() == Seq::<usize>::empty(),
        ends.0.room() == capacity,
        ends.1.taken() == Seq::<T>::empty(),
        ends.1.misses() == 0,
        ends.1.looks() == Seq::<Look>::empty(),
        ends.1.waiting() == 0,
{
    new_ring::<T>(capacity)
}

/// Whether two ends are those of one ring of this capacity.
pub open spec fn ends_of_one_ring<T>(tx: RingTx<T>, rx: RingRx<T>, capacity: usize) -> bool {
    tx.origin() is Some && tx.capacity() == capacity && rx.origin() == tx.origin()
}

impl<T> RingTx<T> {
    /// Every value that went into the ring through this end, in order.
    pub closed spec fn sent(&self) -> Seq<T> {
        self.sent@
    }

    /// Every run of values that was offered to the ring through this end, in
    /// order, whether it went in or not.
    pub closed spec fn offered(&self) -> Seq<Seq<T>> {
        self.offered@
    }

    /// What every look at the room that is left showed, in order.
    pub closed spec fn rooms(&self) -> Seq<usize> {
        self.rooms@
    }

    /// The room that is certain to be there: what the last look showed, less what
    /// went in since.
    pub closed spec fn room(&self) -> nat {
        self.room@
    }

    /// The ring, where it was made here.
    pub closed spec fn origin(&self) -> Option<Origin> {
        self.origin@
    }

    /// How many values the ring can hold, where it was made here.
    pub open spec fn capacity(&self) -> usize {
        self.origin()->0.capacity
    }

    /// An end of a ring that was made elsewhere, which has sent nothing yet.
    pub fn new(tx: rtrb::Producer<T>) -> (end: RingTx<T>)
        ensures
            end.sent() == Seq::<T>::empty(),
            end.offered() == Seq::<Seq<T>>::empty(),
            end.rooms() == Seq::<usize>::empty(),
            end.room() == 0,
            end.origin() is None,
    {
        RingTx {
            tx,
            sent: Ghost(Seq::empty()),
            offered: Ghost(Seq::empty()),
            rooms: Ghost(Seq::empty()),
            room: Ghost(0),
            origin: Ghost(None),
        }
    }

    /// Sends a value, or hands it back where the ring is full.
    pub fn push(&mut self, value: T) -> (pushed: Result<(), T>)
        ensures
            match pushed {
                Ok(_) => final(self).sent() == old(self).sent().push(value),
                Err(back) => back == value && final(self).sent() == old(self).sent(),
            },
            final(self).offered() == old(self).offered().push(seq![value]),
            final(self).rooms() == old(self).rooms(),
            old(self).room() > 0 ==> pushed is Ok,
            final(self).room() == less(old(self).room(), 1),
            final(self).origin() == old(self).origin(),
    {
        push_ring(self, value)
    }

    /// How many values could be sent now.
    pub fn slots(&mut self) -> (room: usize)
        ensures
            final(self).rooms() == old(self).rooms().push(room),
            final(self).room() == room,
            old(self).room() <= room,
            old(self).origin() is Some ==> room <= old(self).capacity(),
            final(self).sent() == old(self).sent(),
            final(self).offered() == old(self).offered(),
            final(self).origin() == old(self).origin(),
    {
        free_slots(self)
    }
}

impl<T: Copy> RingTx<T> {
    /// Sends a run of values whole, or none of it where the ring has too little
    /// room.
    pub fn push_range(&mut self, values: &Vec<T>, from: usize, count: usize) -> (pushed: bool)
        requires
            from + count <= values@.len(),
        ensures
            final(self).sent() == if pushed {
                old(self).sent() + values@.subrange(from as int, from + count)
            } else {
                old(self).sent()
            },
            final(self).offered() == old(self).offered().push(
                values@.subrange(from as int, from + count),
            ),
            final(self).rooms() == old(self).rooms(),
            old(self).room() >= count ==> pushed,
            final(self).room() == if pushed {
                less(old(self).room(), count as nat)
            } else {
                old(self).room()
            },
            final(self).origin() == old(self).origin(),
    {
        assert(values@.len() == values.len());
        push_slice_ring(self, slice_subrange(values.as_slice(), from, from + count))
    }
}

impl<T> RingRx<T> {
    /// Every value that came out of the ring through this end, in order.
    pub closed spec fn taken(&self) -> Seq<T> {
        self.taken@
    }

    /// How often a value was asked for and there was none.
    pub closed spec fn misses(&self) -> nat {
        self.misses@
    }

    /// Every look at the ring through this end and what it showed, in order.
    pub closed spec fn looks(&self) -> Seq<Look> {
        self.looks@
    }

    /// How many values are certain to be there: what the last look showed, less what
    /// was taken since.
    pub closed spec fn waiting(&self) -> nat {
        self.waiting@
    }

    /// The ring, where it was made here.
    pub closed spec fn origin(&self) -> Option<Origin> {
        self.origin@
    }

    /// How many values the ring can hold, where it was made here.
    pub open spec fn capacity(&self) -> usize {
        self.origin()->0.capacity
    }

    /// Whether this end has done no more than one more look since `before`.
    pub open spec fn looked(&self, before: &RingRx<T>, look: Look) -> bool {
        &&& self.looks() == before.looks().push(look)
        &&& self.taken() == before.taken()
        &&& self.misses() == before.misses()
        &&& self.origin() == before.origin()
    }

    /// An end of a ring that was made elsewhere, which has taken nothing yet.
    pub fn new(rx: rtrb::Consumer<T>) -> (end: RingRx<T>)
        ensures
            end.taken() == Seq::<T>::empty(),
            end.misses() == 0,
            end.looks() == Seq::<Look>::empty(),
            end.waiting() == 0,
            end.origin() is None,
    {
        RingRx {
            rx,
            taken: Ghost(Seq::empty()),
            misses: Ghost(0),
            looks: Ghost(Seq::empty()),
            waiting: Ghost(0),
            origin: Ghost(None),
        }
    }

    /// Takes the next value, if there is one.
    pub fn pop(&mut self) -> (popped: Option<T>)
        ensures
            match popped {
                Some(value) => final(self).taken() == old(self).taken().push(value)
                    && final(self).misses() == old(self).misses(),
                None => final(self).taken() == old(self).taken() && final(self).misses() == old(
                    self,
                ).misses() + 1,
            },
            final(self).looks() == old(self).looks(),
            old(self).waiting() > 0 ==> popped is Some,
            final(self).waiting() == less(old(self).waiting(), 1),
            final(self).origin() == old(self).origin(),
    {
        pop_ring(self)
    }

    /// How many values could be taken now.
    pub fn slots(&mut self) -> (waiting: usize)
        ensures
            final(self).looked(old(self), Look::Waiting(waiting)),
            final(self).waiting() == waiting,
            old(self).waiting() <= waiting,
            old(self).origin() is Some ==> waiting <= old(self).capacity(),
    {
        filled_slots(self)
    }

    /// Whether the writing end is gone.
    pub fn is_abandoned(&mut self) -> (gone: bool)
        ensures
            final(self).looked(old(self), Look::Abandoned(gone)),
            final(self).waiting() == old(self).waiting(),
    {
        writer_gone(self)
    }

    /// Whether nothing could be taken now.
    pub fn is_empty(&mut self) -> (empty: bool)
        ensures
            final(self).looked(old(self), Look::Empty(empty)),
            old(self).waiting() > 0 ==> !empty,
            final(self).waiting() == if !empty && old(self).waiting() == 0 {
                1
            } else {
                old(self).waiting()
            },
    {
        nothing_filled(self)
    }

    /// Whether nothing will come any more: the writing end is gone and nothing is
    /// left.
    pub fn has_ended(&mut self) -> (ended: bool)
        ensures
            final(self).taken() == old(self).taken(),
            final(self).misses() == old(self).misses(),
            old(self).looks().is_prefix_of(final(self).looks()),
            tell_the_end(final(self).looks().skip(old(self).looks().len() as int), ended),
            old(self).waiting() > 0 ==> !ended,
            old(self).waiting() <= final(self).waiting(),
            final(self).origin() == old(self).origin(),
    {
        let ghost before = self.looks();
        if !self.is_abandoned() {
            assert(self.looks().skip(before.len() as int) =~= seq![Look::Abandoned(false)]);
            return false;
        }
        let empty: bool = self.is_empty();
        assert(self.looks().skip(before.len() as int) =~= seq![
            Look::Abandoned(true),
            Look::Empty(empty),
        ]);
        empty
    }
}

/// One end of a count that threads share. The record is this end's own: it says what
/// was asked of the shared cell here and what a reading here said, and does not speak
/// of what the cell holds, which the other ends change too.
pub struct Tally {
    cell: Arc<AtomicU64>,
    counted: Ghost<nat>,
    reads: Ghost<Seq<u64>>,
}

impl Tally {
    /// How often this end has counted.
    pub closed spec fn counted(&self) -> nat {
        self.counted@
    }

    /// What every reading through this end said, in order.
    pub closed spec fn reads(&self) -> Seq<u64> {
        self.reads@
    }

    /// Counts into a shared cell.
    pub fn new(cell: Arc<AtomicU64>) -> (tally: Tally)
        ensures
            tally.counted() == 0,
            tally.reads() == Seq::<u64>::empty(),
    {
        Tally { cell, counted: Ghost(0), reads: Ghost(Seq::empty()) }
    }

    /// Counts once. What the shared cell then holds is not said.
    pub fn bump(&mut self)
        ensures
            final(self).counted() == old(self).counted() + 1,
            final(self).reads() == old(self).reads(),
    {
        self.cell.fetch_add(1, Ordering::Relaxed);
        proof {
            self.counted@ = self.counted@ + 1;
        }
    }

    /// What the shared cell says now. Which number that is rests on the other ends.
    pub fn read(&mut self) -> (said: u64)
        ensures
            final(self).reads() == old(self).reads().push(said),
            final(self).counted() == old(self).counted(),
    {
        let said: u64 = self.cell.load(Ordering::Relaxed);
        proof {
            self.reads@ = self.reads@.push(said);
        }
        said
    }
}

} // verus!
