//! Putting things in order, keeping the order of those that rank alike.

use vstd::prelude::*;

verus! {

/// Something that has a place in an order.
pub trait Ranked: Sized {
    /// Where it stands; the lowest comes first.
    spec fn rank(&self) -> int;

    /// Where it stands.
    fn ranked(&self) -> (rank: u64)
        ensures
            rank == self.rank(),
    ;
}

/// Whether something holds a rank.
pub open spec fn holds<T: Ranked>(rank: int) -> spec_fn(T) -> bool {
    |item: T| item.rank() == rank
}

/// Those of a list that hold one rank, in the order of the list.
pub open spec fn at_rank<T: Ranked>(items: Seq<T>, rank: int) -> Seq<T> {
    items.filter(holds(rank))
}

/// Lower ranks come first.
pub open spec fn in_order<T: Ranked>(items: Seq<T>) -> bool {
    forall|i: int, j: int|
        0 <= i < j < items.len() ==> (#[trigger] items[i]).rank() <= (#[trigger] items[j]).rank()
}

/// The second list is the first one in order: lower ranks first, and those that
/// rank alike as they stood.
pub open spec fn sorts<T: Ranked>(items: Seq<T>, sorted: Seq<T>) -> bool {
    &&& in_order(sorted)
    &&& forall|rank: int| #[trigger] at_rank(sorted, rank) == at_rank(items, rank)
}

proof fn lemma_none_kept<T>(items: Seq<T>, p: spec_fn(T) -> bool)
    requires
        forall|k: int| 0 <= k < items.len() ==> !p(#[trigger] items[k]),
    ensures
        items.filter(p) == Seq::<T>::empty(),
    decreases items.len(),
{
    reveal(Seq::filter);
    if items.len() > 0 {
        let fewer = items.drop_last();
        assert forall|k: int| 0 <= k < fewer.len() implies !p(#[trigger] fewer[k]) by {
            assert(fewer[k] == items[k]);
        }
        lemma_none_kept(fewer, p);
    }
}

/// A newcomer behind all that rank no higher comes last among those that rank
/// as it does.
proof fn lemma_insert<T: Ranked>(sorted: Seq<T>, at: int, item: T, rank: int)
    requires
        0 <= at <= sorted.len(),
        forall|k: int| at <= k < sorted.len() ==> (#[trigger] sorted[k]).rank() > item.rank(),
    ensures
        at_rank(sorted.insert(at, item), rank) == if item.rank() == rank {
            at_rank(sorted, rank).push(item)
        } else {
            at_rank(sorted, rank)
        },
{
    let p = holds::<T>(rank);
    let low = sorted.take(at);
    let high = sorted.skip(at);
    assert(sorted =~= low + high);
    assert(sorted.insert(at, item) =~= low.push(item) + high);
    Seq::filter_distributes_over_add(low, high, p);
    Seq::filter_distributes_over_add(low.push(item), high, p);
    assert(low.push(item).drop_last() =~= low);
    reveal(Seq::filter);
    if item.rank() == rank {
        assert forall|k: int| 0 <= k < high.len() implies !p(#[trigger] high[k]) by {
            assert(high[k] == sorted[at + k]);
        }
        lemma_none_kept(high, p);
        assert(low.push(item).filter(p) =~= low.filter(p).push(item));
        assert(low.filter(p).push(item) + high.filter(p) =~= low.filter(p).push(item));
        assert(low.filter(p) + high.filter(p) =~= low.filter(p));
    } else {
        assert(low.push(item).filter(p) =~= low.filter(p));
    }
}

/// Puts a list in order.
pub fn sort<T: Ranked>(items: Vec<T>) -> (sorted: Vec<T>)
    ensures
        sorts(items@, sorted@),
{
    let ghost all = items@;
    let mut rest: Vec<T> = items;
    let mut flipped: Vec<T> = Vec::new();
    while rest.len() > 0
        invariant
            rest@.len() + flipped@.len() == all.len(),
            rest@ == all.take(rest@.len() as int),
            flipped@ == all.skip(rest@.len() as int).reverse(),
        decreases rest.len(),
    {
        let ghost before = rest@.len();
        if let Some(item) = rest.pop() {
            flipped.push(item);
            assert(flipped@ =~= all.skip(before - 1).reverse());
            assert(rest@ =~= all.take(before - 1));
        }
    }
    let mut sorted: Vec<T> = Vec::new();
    assert(flipped@ =~= all.reverse());
    assert(all.take(0).len() == 0);
    assert(sorted@ =~= all.take(0));
    while flipped.len() > 0
        invariant
            sorted@.len() + flipped@.len() == all.len(),
            flipped@ == all.skip(sorted@.len() as int).reverse(),
            sorts(all.take(sorted@.len() as int), sorted@),
        decreases flipped.len(),
    {
        let ghost done = sorted@.len() as int;
        let ghost placed = sorted@;
        if let Some(item) = flipped.pop() {
            assert(item == all[done]);
            assert(flipped@ =~= all.skip(done + 1).reverse());
            let rank: u64 = item.ranked();
            let mut at: usize = sorted.len();
            while at > 0 && sorted[at - 1].ranked() > rank
                invariant
                    at <= sorted@.len(),
                    rank == item.rank(),
                    forall|k: int|
                        at <= k < sorted@.len() ==> (#[trigger] sorted@[k]).rank() > item.rank(),
                decreases at,
            {
                at = at - 1;
            }
            sorted.insert(at, item);
            proof {
                assert(at > 0 ==> placed[at - 1].rank() <= item.rank());
                assert forall|i: int, j: int| 0 <= i < j < sorted@.len() implies (
                #[trigger] sorted@[i]).rank() <= (#[trigger] sorted@[j]).rank() by {
                    let p = if i < at { i } else { i - 1 };
                    let q = if j <= at { j } else { j - 1 };
                    if i != at && j != at {
                        assert(placed[p].rank() <= placed[if j < at { j } else { j - 1 }].rank());
                    } else if j == at && i < at - 1 {
                        assert(placed[i].rank() <= placed[at - 1].rank());
                    }
                }
                assert forall|r: int| #[trigger] at_rank(sorted@, r) == at_rank(
                    all.take(done + 1),
                    r,
                ) by {
                    lemma_insert(placed, at as int, item, r);
                    assert(at_rank(placed, r) == at_rank(all.take(done), r));
                    assert(all.take(done + 1).drop_last() =~= all.take(done));
                    reveal(Seq::filter);
                }
            }
        }
    }
    assert(all.take(all.len() as int) =~= all);
    sorted
}

/// A list that is in order stays as it is.
pub proof fn order_changes_nothing<T: Ranked>(items: Seq<T>, sorted: Seq<T>)
    requires
        in_order(items),
        sorts(items, sorted),
    ensures
        sorted == items,
    decreases items.len(),
{
    reveal(Seq::filter);
    if items.len() == 0 {
        if sorted.len() > 0 {
            assert(at_rank(sorted, sorted.last().rank()) == at_rank(items, sorted.last().rank()));
        }
    } else {
        let top = items.last().rank();
        assert(at_rank(sorted, top) == at_rank(items, top));
        assert(at_rank(items, top).last() == items.last());
        if sorted.len() == 0 {
            assert(at_rank(items, top).len() == 0);
        }
        let other = sorted.last().rank();
        assert(at_rank(sorted, other) == at_rank(items, other));
        assert(at_rank(sorted, other).last() == sorted.last());
        if other > top {
            assert forall|k: int| 0 <= k < items.len() implies !holds::<T>(other)(
                #[trigger] items[k],
            ) by {}
            lemma_none_kept(items, holds(other));
        }
        if other < top {
            assert forall|k: int| 0 <= k < sorted.len() implies !holds::<T>(top)(
                #[trigger] sorted[k],
            ) by {}
            lemma_none_kept(sorted, holds(top));
        }
        let fewer = items.drop_last();
        let rest = sorted.drop_last();
        assert forall|i: int, j: int| 0 <= i < j < fewer.len() implies (#[trigger] fewer[i]).rank()
            <= (#[trigger] fewer[j]).rank() by {
            assert(items[i].rank() <= items[j].rank());
        }
        assert forall|i: int, j: int| 0 <= i < j < rest.len() implies (#[trigger] rest[i]).rank()
            <= (#[trigger] rest[j]).rank() by {
            assert(sorted[i].rank() <= sorted[j].rank());
        }
        assert forall|r: int| #[trigger] at_rank(rest, r) == at_rank(fewer, r) by {
            assert(at_rank(sorted, r) == at_rank(items, r));
            if r == top {
                assert(at_rank(rest, r) =~= at_rank(sorted, r).drop_last());
                assert(at_rank(fewer, r) =~= at_rank(items, r).drop_last());
            }
        }
        order_changes_nothing(fewer, rest);
        assert(items =~= fewer.push(items.last()));
        assert(sorted =~= rest.push(sorted.last()));
    }
}

} // verus!
