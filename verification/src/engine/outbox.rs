//! The way out for what the audio thread must not drop itself: down a ring, or
//! - while the ring is full - into a small parking.

use vstd::multiset::Multiset;
use vstd::prelude::*;
use vstd::seq_lib::lemma_multiset_commutative;

use crate::engine::ring::Origin;
use crate::engine::ring::RingTx;

verus! {

/// A ring toward the control side, with a parking in front of it.
#[verifier::reject_recursive_types(T)]
pub struct Outbox<T> {
    tx: RingTx<T>,
    parked: Vec<T>,
    /// Places in the parking.
    places: usize,
    entrusted: Ghost<Seq<T>>,
    lost: Ghost<Seq<T>>,
}

/// Where a retiree went: down the ring, to the parking, or - with both full -
/// nowhere.
pub open spec fn let_go<T>(
    sent: Seq<T>,
    parked: Seq<T>,
    sent_after: Seq<T>,
    parked_after: Seq<T>,
    places: nat,
    retiree: T,
) -> bool {
    ||| sent_after == sent.push(retiree) && parked_after == parked
    ||| sent_after == sent && parked.len() < places && parked_after == parked.push(retiree)
    ||| sent_after == sent && parked.len() >= places && parked_after == parked
}

/// Whether the newest of the parked went down the ring, newest first, and the
/// others stayed.
pub open spec fn flushed<T>(
    sent: Seq<T>,
    parked: Seq<T>,
    sent_after: Seq<T>,
    parked_after: Seq<T>,
) -> bool {
    &&& parked_after.len() <= parked.len()
    &&& parked_after == parked.take(parked_after.len() as int)
    &&& sent_after == sent + parked.skip(parked_after.len() as int).reverse()
}

/// What is offered to the ring when the parked are handed over, newest first, and
/// all but the first `left` of them went: those, and the one that was refused.
pub open spec fn flush_offers<T>(parked: Seq<T>, left: int) -> Seq<Seq<T>> {
    let refused: int = if left > 0 {
        1
    } else {
        0
    };
    Seq::new(
        (parked.len() - left + refused) as nat,
        |i: int| seq![parked[parked.len() - 1 - i]],
    )
}

impl<T> Outbox<T> {
    /// What went down the ring, in order.
    pub closed spec fn sent(&self) -> Seq<T> {
        self.tx.sent()
    }

    /// Every run of values that was offered to the ring, in order.
    pub closed spec fn offered(&self) -> Seq<Seq<T>> {
        self.tx.offered()
    }

    /// The ring, where it was made by this library.
    pub closed spec fn origin(&self) -> Option<Origin> {
        self.tx.origin()
    }

    /// Everything that was let go of here, in order.
    pub closed spec fn entrusted(&self) -> Seq<T> {
        self.entrusted@
    }

    /// What found neither the ring nor the parking with room, in order.
    pub closed spec fn lost(&self) -> Seq<T> {
        self.lost@
    }

    /// Everything that was let go of here and is down the ring, parked or lost.
    pub open spec fn accounted(&self) -> Multiset<T> {
        (self.sent() + self.parked() + self.lost()).to_multiset()
    }

    /// What was let go of since `before`.
    pub open spec fn retirees(&self, before: &Outbox<T>) -> Seq<T> {
        self.entrusted().skip(before.entrusted().len() as int)
    }

    /// Whether the outbox came from `before` by letting go and flushing: nothing
    /// vanishes, nothing comes out of nowhere, and something is lost only once the
    /// parking is full.
    pub open spec fn carried_on(&self, before: &Outbox<T>) -> bool {
        let more = self.retirees(before);
        let lost = self.lost().len() - before.lost().len();
        &&& before.entrusted().is_prefix_of(self.entrusted())
        &&& before.sent().is_prefix_of(self.sent())
        &&& before.lost().is_prefix_of(self.lost())
        &&& self.places() == before.places()
        &&& self.origin() == before.origin()
        &&& self.accounted() == before.accounted().add(more.to_multiset())
        &&& self.parked().len() + lost <= before.parked().len() + more.len()
        &&& lost > 0 ==> before.parked().len() + more.len() >= before.places() + lost
    }

    /// What waits in the parking.
    pub closed spec fn parked(&self) -> Seq<T> {
        self.parked@
    }

    /// Whether nothing is parked but what the ring has just refused to take.
    pub open spec fn cleared(&self) -> bool {
        self.parked().len() > 0 ==> self.offered().len() > 0 && self.offered().last()
            == seq![self.parked().last()]
    }

    /// Places in the parking.
    pub closed spec fn places(&self) -> nat {
        self.places as nat
    }

    /// An outbox with an empty parking.
    pub fn new(tx: RingTx<T>, places: usize) -> (outbox: Outbox<T>)
        ensures
            outbox.sent() == tx.sent(),
            outbox.offered() == tx.offered(),
            outbox.origin() == tx.origin(),
            outbox.entrusted() == Seq::<T>::empty(),
            outbox.parked() == Seq::<T>::empty(),
            outbox.lost() == Seq::<T>::empty(),
            outbox.places() == places,
    {
        Outbox {
            tx,
            parked: Vec::with_capacity(places),
            places,
            entrusted: Ghost(Seq::empty()),
            lost: Ghost(Seq::empty()),
        }
    }

    /// Lets go of something.
    pub fn retire(&mut self, retiree: T)
        ensures
            let_go(
                old(self).sent(),
                old(self).parked(),
                final(self).sent(),
                final(self).parked(),
                old(self).places(),
                retiree,
            ),
            final(self).offered() == old(self).offered().push(seq![retiree]),
            final(self).entrusted() == old(self).entrusted().push(retiree),
            final(self).places() == old(self).places(),
            final(self).carried_on(old(self)),
    {
        let ghost before = *self;
        proof {
            self.entrusted@ = self.entrusted@.push(retiree);
        }
        match self.tx.push(retiree) {
            Ok(()) => {},
            Err(back) => {
                if self.parked.len() < self.places {
                    self.parked.push(back);
                } else {
                    proof {
                        self.lost@ = self.lost@.push(back);
                    }
                }
            },
        }
        proof {
            lemma_one_more(before.sent(), before.parked(), before.lost(), retiree);
            assert(self.retirees(&before) =~= seq![retiree]);
        }
    }

    /// Hands over what is parked, newest first, until the ring is full.
    pub fn flush(&mut self)
        ensures
            flushed(
                old(self).sent(),
                old(self).parked(),
                final(self).sent(),
                final(self).parked(),
            ),
            final(self).offered() == old(self).offered() + flush_offers(
                old(self).parked(),
                final(self).parked().len() as int,
            ),
            final(self).cleared(),
            final(self).entrusted() == old(self).entrusted(),
            final(self).places() == old(self).places(),
            final(self).lost() == old(self).lost(),
            final(self).carried_on(old(self)),
    {
        let ghost before = *self;
        let ghost sent = self.tx.sent();
        let ghost offered = self.tx.offered();
        let ghost parked = self.parked@;
        let ghost places = self.places;
        let ghost entrusted = self.entrusted;
        let ghost lost = self.lost;
        let mut full: bool = false;
        proof {
            assert(offered + Seq::new(0, |i: int| seq![parked[parked.len() - 1 - i]]) =~= offered);
            assert(parked.take(parked.len() as int) =~= parked);
            assert(sent + parked.skip(parked.len() as int).reverse() =~= sent);
        }
        while !full && self.parked.len() > 0
            invariant
                flushed(sent, parked, self.tx.sent(), self.parked@),
                full ==> self.parked@.len() > 0,
                self.tx.offered() == offered + Seq::new(
                    (parked.len() - self.parked@.len() + if full {
                        1int
                    } else {
                        0int
                    }) as nat,
                    |i: int| seq![parked[parked.len() - 1 - i]],
                ),
                self.places == places,
                self.entrusted == entrusted,
                self.lost == lost,
                self.tx.origin() == before.tx.origin(),
            decreases self.parked.len(), (if full { 0int } else { 1int }),
        {
            let ghost held = self.parked@;
            let n: usize = self.parked.len();
            let ghost so_far = self.tx.offered();
            if let Some(newest) = self.parked.pop() {
                assert(newest == parked[n - 1]);
                assert(so_far.push(seq![newest]) =~= offered + Seq::new(
                    (parked.len() - n + 1) as nat,
                    |i: int| seq![parked[parked.len() - 1 - i]],
                ));
                match self.tx.push(newest) {
                    Ok(()) => {
                        proof {
                            assert(self.parked@ =~= parked.take(n - 1));
                            assert(newest == parked[n - 1]);
                            assert(parked.skip(n - 1) =~= seq![newest] + parked.skip(n as int));
                            assert(self.tx.sent() =~= sent + parked.skip(n - 1).reverse());
                        }
                    },
                    Err(back) => {
                        self.parked.push(back);
                        full = true;
                        assert(self.parked@ =~= held);
                    },
                }
            }
        }
        proof {
            lemma_flushed_accounted(sent, parked, self.tx.sent(), self.parked@, lost@);
            assert(self.retirees(&before) =~= Seq::empty());
            lemma_nothing_more(self.retirees(&before), before.accounted());
        }
    }
}

proof fn lemma_nothing_more<T>(none: Seq<T>, accounted: Multiset<T>)
    requires
        none == Seq::<T>::empty(),
    ensures
        accounted.add(none.to_multiset()) == accounted,
{
    none.to_multiset_ensures();
    assert(none.to_multiset() =~= Multiset::empty());
    assert(accounted.add(none.to_multiset()) =~= accounted);
}

proof fn lemma_parts<T>(a: Seq<T>, b: Seq<T>, c: Seq<T>)
    ensures
        (a + b + c).to_multiset() == a.to_multiset().add(b.to_multiset()).add(c.to_multiset()),
{
    lemma_multiset_commutative(a + b, c);
    lemma_multiset_commutative(a, b);
}

proof fn lemma_one_more<T>(sent: Seq<T>, parked: Seq<T>, lost: Seq<T>, one: T)
    ensures
        ({
            let all = (sent + parked + lost).to_multiset().add(seq![one].to_multiset());
            &&& (sent.push(one) + parked + lost).to_multiset() == all
            &&& (sent + parked.push(one) + lost).to_multiset() == all
            &&& (sent + parked + lost.push(one)).to_multiset() == all
        }),
{
    let last = seq![one];
    assert(sent.push(one) =~= sent + last);
    assert(parked.push(one) =~= parked + last);
    assert(lost.push(one) =~= lost + last);
    lemma_multiset_commutative(sent, last);
    lemma_multiset_commutative(parked, last);
    lemma_multiset_commutative(lost, last);
    lemma_parts(sent, parked, lost);
    lemma_parts(sent + last, parked, lost);
    lemma_parts(sent, parked + last, lost);
    lemma_parts(sent, parked, lost + last);
    let all = (sent + parked + lost).to_multiset().add(last.to_multiset());
    assert((sent.push(one) + parked + lost).to_multiset() =~= all);
    assert((sent + parked.push(one) + lost).to_multiset() =~= all);
    assert((sent + parked + lost.push(one)).to_multiset() =~= all);
}

proof fn lemma_reverse<T>(s: Seq<T>)
    ensures
        s.reverse().to_multiset() == s.to_multiset(),
    decreases s.len(),
{
    if s.len() == 0 {
        assert(s.reverse() =~= s);
    } else {
        let rest = s.drop_last();
        let last = seq![s.last()];
        lemma_reverse(rest);
        assert(s =~= rest + last);
        assert(s.reverse() =~= last + rest.reverse());
        lemma_multiset_commutative(rest, last);
        lemma_multiset_commutative(last, rest.reverse());
        assert(s.reverse().to_multiset() =~= s.to_multiset());
    }
}

proof fn lemma_flushed_accounted<T>(
    sent: Seq<T>,
    parked: Seq<T>,
    sent_after: Seq<T>,
    parked_after: Seq<T>,
    lost: Seq<T>,
)
    requires
        flushed(sent, parked, sent_after, parked_after),
    ensures
        (sent_after + parked_after + lost).to_multiset() == (sent + parked + lost).to_multiset(),
{
    let gone = parked.skip(parked_after.len() as int);
    assert(parked =~= parked_after + gone);
    lemma_reverse(gone);
    lemma_parts(sent, parked, lost);
    lemma_parts(sent_after, parked_after, lost);
    lemma_multiset_commutative(sent, gone.reverse());
    lemma_multiset_commutative(parked_after, gone);
    assert((sent_after + parked_after + lost).to_multiset() =~= (sent + parked
        + lost).to_multiset());
}

/// What carries on from where another carried on to has carried on all the way.
pub(crate) proof fn lemma_carried_on<T>(a: Outbox<T>, b: Outbox<T>, c: Outbox<T>)
    requires
        b.carried_on(&a),
        c.carried_on(&b),
    ensures
        c.carried_on(&a),
{
    let first = b.retirees(&a);
    let second = c.retirees(&b);
    assert(c.retirees(&a) =~= first + second);
    lemma_multiset_commutative(first, second);
    assert(c.accounted() =~= a.accounted().add(c.retirees(&a).to_multiset()));
}

pub(crate) proof fn lemma_stood_still<T>(a: Outbox<T>)
    ensures
        a.carried_on(&a),
{
    assert(a.retirees(&a) =~= Seq::empty());
    lemma_nothing_more(a.retirees(&a), a.accounted());
}

/// Over any number of calls: as long as the parking has room for all that is let go
/// of, nothing is lost, and everything is down the ring or parked.
pub proof fn nothing_is_lost_while_there_is_room<T>(before: Outbox<T>, after: Outbox<T>)
    requires
        after.carried_on(&before),
        before.parked().len() + after.retirees(&before).len() <= before.places(),
    ensures
        after.lost() == before.lost(),
        (after.sent() + after.parked()).to_multiset() == (before.sent()
            + before.parked()).to_multiset().add(after.retirees(&before).to_multiset()),
        after.parked().len() <= after.places(),
{
    assert(after.lost() =~= before.lost());
    let now = (after.sent() + after.parked()).to_multiset();
    let lost = before.lost().to_multiset();
    let due = (before.sent() + before.parked()).to_multiset().add(
        after.retirees(&before).to_multiset(),
    );
    lemma_multiset_commutative(after.sent() + after.parked(), after.lost());
    lemma_multiset_commutative(before.sent() + before.parked(), before.lost());
    assert(now.add(lost) == after.accounted());
    assert(now.add(lost) =~= due.add(lost));
    assert forall|v: T| #[trigger] now.count(v) == due.count(v) by {
        assert(now.add(lost).count(v) == due.add(lost).count(v));
    }
    assert(now =~= due);
}

/// As long as the parking has room, a retiree is never dropped: it is down the
/// ring or parked, and so is everything that was.
pub proof fn a_retiree_is_never_dropped_while_there_is_room<T>(
    sent: Seq<T>,
    parked: Seq<T>,
    sent_after: Seq<T>,
    parked_after: Seq<T>,
    places: nat,
    retiree: T,
)
    requires
        let_go(sent, parked, sent_after, parked_after, places, retiree),
        parked.len() < places,
    ensures
        (sent_after + parked_after).to_multiset() == (sent + parked).to_multiset().insert(retiree),
        parked_after.len() <= places,
{
    let down = sent.push(retiree) + parked;
    let at = sent.len() as int;
    down.to_multiset_ensures();
    (sent + parked).to_multiset_ensures();
    assert(down[at] == retiree);
    assert(down.contains(retiree));
    assert(down.remove(at) =~= sent + parked);
    assert((sent + parked).push(retiree) =~= sent + parked.push(retiree));
    assert((sent + parked).to_multiset().insert(retiree) =~= down.to_multiset());
}

/// Flushing the parked loses nothing and makes nothing up.
pub proof fn flushing_keeps_everything<T>(
    sent: Seq<T>,
    parked: Seq<T>,
    sent_after: Seq<T>,
    parked_after: Seq<T>,
)
    requires
        flushed(sent, parked, sent_after, parked_after),
    ensures
        sent_after.len() + parked_after.len() == sent.len() + parked.len(),
        forall|i: int| 0 <= i < sent.len() ==> sent_after[i] == sent[i],
        forall|i: int|
            0 <= i < parked.len() ==> parked_after.contains(#[trigger] parked[i])
                || sent_after.contains(parked[i]),
{
    let kept = parked_after.len() as int;
    assert forall|i: int| 0 <= i < parked.len() implies parked_after.contains(
        #[trigger] parked[i],
    ) || sent_after.contains(parked[i]) by {
        if i < kept {
            assert(parked_after[i] == parked[i]);
        } else {
            assert(sent_after[sent.len() + (parked.len() - 1 - i)] == parked[i]);
        }
    }
}

} // verus!
