//! Facts about sequences that several modules share.

use vstd::prelude::*;

verus! {

/// What each element of a list stands for.
pub open spec fn views<T: View>(s: Seq<T>) -> Seq<T::V> {
    Seq::new(s.len(), |i: int| s[i]@)
}

/// A machine index as a mathematical one.
pub open spec fn index_of(at: Option<usize>) -> Option<int> {
    match at {
        Some(i) => Some(i as int),
        None => None,
    }
}

/// One past the largest of the numbers, 0 where there is none.
pub open spec fn next_free(ids: Seq<u32>) -> int
    decreases ids.len(),
{
    if ids.len() == 0 {
        0
    } else {
        let rest = next_free(ids.drop_last());
        if ids.last() + 1 > rest {
            ids.last() + 1
        } else {
            rest
        }
    }
}

/// The next number to hand out: none below the mark, and none up to the largest of
/// the numbers.
pub open spec fn next_number(mark: u64, ids: Seq<u32>) -> int {
    if mark > next_free(ids) {
        mark as int
    } else {
        next_free(ids)
    }
}

/// The next free number is above every number in use, and no larger than it
/// has to be.
pub proof fn next_free_is_unused(ids: Seq<u32>)
    ensures
        forall|i: int| 0 <= i < ids.len() ==> (#[trigger] ids[i]) < next_free(ids),
        next_free(ids) == 0 <==> ids.len() == 0,
        ids.len() > 0 ==> exists|i: int|
            0 <= i < ids.len() && (#[trigger] ids[i]) + 1 == next_free(ids),
    decreases ids.len(),
{
    if ids.len() > 0 {
        let rest = ids.drop_last();
        next_free_is_unused(rest);
        assert forall|i: int| 0 <= i < ids.len() implies (#[trigger] ids[i]) < next_free(ids) by {
            if i < rest.len() {
                assert(rest[i] == ids[i]);
            }
        }
        if next_free(ids) == ids.last() + 1 {
            assert(ids[ids.len() - 1] + 1 == next_free(ids));
        } else {
            let i = choose|i: int| 0 <= i < rest.len() && (#[trigger] rest[i]) + 1 == next_free(rest);
            assert(ids[i] + 1 == next_free(ids));
        }
    }
}

/// A first occurrence is where `index_of_first` points.
pub proof fn lemma_first<K>(keys: Seq<K>, key: K, i: int)
    requires
        0 <= i < keys.len(),
        keys[i] == key,
        forall|j: int| 0 <= j < i ==> keys[j] != key,
    ensures
        keys.index_of_first(key) == Some(i),
{
    keys.index_of_first_ensures(key);
}

/// `index_of_first` of a key that does not occur.
pub proof fn lemma_absent<K>(keys: Seq<K>, key: K)
    requires
        forall|j: int| 0 <= j < keys.len() ==> keys[j] != key,
    ensures
        keys.index_of_first(key) == None::<int>,
{
    keys.index_of_first_ensures(key);
}

/// Filtering one element more.
pub proof fn lemma_filter_step<T>(s: Seq<T>, p: spec_fn(T) -> bool, i: int)
    requires
        0 <= i < s.len(),
    ensures
        s.take(i + 1).filter(p) == if p(s[i]) {
            s.take(i).filter(p).push(s[i])
        } else {
            s.take(i).filter(p)
        },
{
    let longer = s.take(i + 1);
    assert(longer.drop_last() =~= s.take(i));
    assert(longer.last() == s[i]);
    reveal(Seq::filter);
}

/// Filtering nothing.
pub proof fn lemma_filter_none<T>(s: Seq<T>, p: spec_fn(T) -> bool)
    ensures
        s.take(0).filter(p) == Seq::<T>::empty(),
{
    reveal(Seq::filter);
    assert(s.take(0).filter(p) =~= Seq::<T>::empty());
}

/// Where the elements that a filter keeps come from: in the same order, each
/// satisfying the predicate, and none left out.
pub proof fn filter_origins<T>(s: Seq<T>, p: spec_fn(T) -> bool) -> (from: Seq<int>)
    ensures
        from.len() == s.filter(p).len(),
        forall|k: int|
            0 <= k < from.len() ==> 0 <= (#[trigger] from[k]) < s.len() && s.filter(p)[k]
                == s[from[k]] && p(s[from[k]]),
        forall|j: int, k: int| 0 <= j < k < from.len() ==> #[trigger] from[j] < #[trigger] from[k],
        forall|i: int| 0 <= i < s.len() && p(#[trigger] s[i]) ==> from.contains(i),
    decreases s.len(),
{
    reveal(Seq::filter);
    if s.len() == 0 {
        Seq::empty()
    } else {
        let rest = s.drop_last();
        let shorter = filter_origins(rest, p);
        if p(s.last()) {
            let from = shorter.push(s.len() - 1);
            assert forall|i: int| 0 <= i < s.len() && p(#[trigger] s[i]) implies from.contains(
                i,
            ) by {
                if i < rest.len() {
                    assert(p(rest[i]));
                    let k = choose|k: int| 0 <= k < shorter.len() && shorter[k] == i;
                    assert(from[k] == i);
                } else {
                    assert(from[shorter.len() as int] == i);
                }
            }
            from
        } else {
            assert forall|i: int| 0 <= i < s.len() && p(#[trigger] s[i]) implies shorter.contains(
                i,
            ) by {
                assert(p(rest[i]));
            }
            shorter
        }
    }
}

/// No two elements share a key.
pub open spec fn distinct_by<T, K>(s: Seq<T>, key: spec_fn(T) -> K) -> bool {
    forall|i: int, j: int|
        0 <= i < j < s.len() ==> key(#[trigger] s[i]) != key(#[trigger] s[j])
}

/// What a filter keeps is as distinct as what it was given.
pub proof fn filter_keeps_distinct<T, K>(s: Seq<T>, p: spec_fn(T) -> bool, key: spec_fn(T) -> K)
    requires
        distinct_by(s, key),
    ensures
        distinct_by(s.filter(p), key),
{
    let from = filter_origins(s, p);
    assert forall|i: int, j: int| 0 <= i < j < s.filter(p).len() implies key(
        #[trigger] s.filter(p)[i],
    ) != key(#[trigger] s.filter(p)[j]) by {
        assert(from[i] < from[j]);
    }
}

} // verus!
