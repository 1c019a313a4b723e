//! Finding the first wanted item of a sequence, and keeping the wanted
//! items of one.

use vstd::prelude::*;

verus! {

/// The first place from `start` on that holds a wanted item; the length of
/// the sequence where there is none.
pub open spec fn first_match<T>(items: Seq<T>, wanted: spec_fn(T) -> bool, start: int) -> int
    decreases items.len() - start,
{
    if start < 0 || start >= items.len() {
        items.len() as int
    } else if wanted(items[start]) {
        start
    } else {
        first_match(items, wanted, start + 1)
    }
}

/// The place that `first_match` gives holds a wanted item, and no place
/// between `start` and it does.
pub proof fn lemma_first_match<T>(items: Seq<T>, wanted: spec_fn(T) -> bool, start: int)
    requires
        0 <= start <= items.len(),
    ensures
        start <= first_match(items, wanted, start) <= items.len(),
        first_match(items, wanted, start) < items.len() ==> wanted(
            items[first_match(items, wanted, start)],
        ),
        forall|j: int|
            start <= j < first_match(items, wanted, start) ==> !wanted(#[trigger] items[j]),
    decreases items.len() - start,
{
    if start < items.len() && !wanted(items[start]) {
        lemma_first_match(items, wanted, start + 1);
    }
}

/// A place that holds a wanted item, with none before it that does, is the
/// place that `first_match` gives from the start; so is the length of the
/// sequence where no place holds one.
pub proof fn lemma_first_match_is<T>(items: Seq<T>, wanted: spec_fn(T) -> bool, place: int)
    requires
        0 <= place <= items.len(),
        place < items.len() ==> wanted(items[place]),
        forall|j: int| 0 <= j < place ==> !wanted(#[trigger] items[j]),
    ensures
        first_match(items, wanted, 0) == place,
{
    lemma_first_match(items, wanted, 0);
}

/// What is kept of the first `k + 1` items is what is kept of the first
/// `k`, and after it the item at place `k` where it is one to keep.
pub proof fn lemma_filter_step<T>(items: Seq<T>, keep: spec_fn(T) -> bool, k: int)
    requires
        0 <= k < items.len(),
    ensures
        items.take(k + 1).filter(keep) == if keep(items[k]) {
            items.take(k).filter(keep).push(items[k])
        } else {
            items.take(k).filter(keep)
        },
{
    reveal(Seq::filter);
    assert(items.take(k + 1).drop_last() =~= items.take(k));
}

/// Every item that is kept was in the sequence and is one to keep, and
/// every such item of the sequence is kept.
pub proof fn lemma_filter_members<T>(items: Seq<T>, keep: spec_fn(T) -> bool)
    ensures
        forall|j: int|
            0 <= j < items.filter(keep).len() ==> keep(#[trigger] items.filter(keep)[j])
                && items.contains(items.filter(keep)[j]),
        forall|i: int|
            0 <= i < items.len() && keep(#[trigger] items[i]) ==> items.filter(keep).contains(
                items[i],
            ),
    decreases items.len(),
{
    reveal(Seq::filter);
    if items.len() > 0 {
        let before = items.drop_last();
        lemma_filter_members(before, keep);
        let kept = items.filter(keep);
        assert forall|j: int| 0 <= j < kept.len() implies keep(#[trigger] kept[j])
            && items.contains(kept[j]) by {
            if j < before.filter(keep).len() {
                assert(kept[j] == before.filter(keep)[j]);
                let i = choose|i: int| 0 <= i < before.len() && before[i] == kept[j];
                assert(items[i] == kept[j]);
            } else {
                assert(kept[j] == items[items.len() - 1]);
            }
        }
        assert forall|i: int| 0 <= i < items.len() && keep(#[trigger] items[i]) implies kept.contains(
            items[i],
        ) by {
            if i < before.len() {
                assert(before[i] == items[i]);
                let j = choose|j: int|
                    0 <= j < before.filter(keep).len() && before.filter(keep)[j] == items[i];
                assert(kept[j] == items[i]);
            } else {
                assert(kept[kept.len() - 1] == items[i]);
            }
        }
    }
}

} // verus!
