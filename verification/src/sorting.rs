//! Sorting that keeps the order of equal items.
use vstd::prelude::*;

verus! {

/// `order` lists each index below `n` once.
pub open spec fn is_permutation(order: Seq<int>, n: nat) -> bool {
    &&& order.len() == n
    &&& forall|i: int| 0 <= i < n ==> 0 <= #[trigger] order[i] < n
    &&& order.no_duplicates()
}

/// The items that the indices of `order` stand for.
pub open spec fn picked<T>(items: Seq<T>, order: Seq<int>) -> Seq<T> {
    order.map_values(|i: int| items[i])
}

/// `lt` orders the items: it goes one way only, and items that are not less than one another form
/// a chain.
pub open spec fn is_ordering<T>(items: Seq<T>, lt: spec_fn(T, T) -> bool) -> bool {
    &&& forall|i: int, j: int|
        0 <= i < items.len() && 0 <= j < items.len() && #[trigger] lt(items[i], items[j]) ==> !lt(
            items[j],
            items[i],
        )
    &&& forall|i: int, j: int, k: int|
        0 <= i < items.len() && 0 <= j < items.len() && 0 <= k < items.len() && !#[trigger] lt(
            items[j],
            items[i],
        ) && !#[trigger] lt(items[k], items[j]) ==> !lt(items[k], items[i])
}

/// The item at `i` belongs before the one at `j`: it is less, or it is not greater and came first.
pub open spec fn precedes<T>(items: Seq<T>, lt: spec_fn(T, T) -> bool, i: int, j: int) -> bool {
    lt(items[i], items[j]) || (!lt(items[j], items[i]) && i < j)
}

/// `order` arranges the items, equal ones as they came. Where `lt` does not order the items it is
/// some arrangement of them.
pub open spec fn is_sorting<T>(items: Seq<T>, lt: spec_fn(T, T) -> bool, order: Seq<int>) -> bool {
    &&& is_permutation(order, items.len())
    &&& is_ordering(items, lt) ==> forall|i: int, j: int|
        0 <= i < j < order.len() ==> #[trigger] precedes(items, lt, order[i], order[j])
}

/// `sorted` are the items in their order, equal ones as they came.
pub open spec fn is_sorted_from<T>(items: Seq<T>, lt: spec_fn(T, T) -> bool, sorted: Seq<T>) -> bool {
    exists|order: Seq<int>| #[trigger] is_sorting(items, lt, order) && sorted == picked(items, order)
}

/// Sorts items, keeping equal ones in the order in which they came.
pub(crate) fn stable_sort<T, F: Fn(&T, &T) -> bool>(
    items: Vec<T>,
    less: F,
    Ghost(lt): Ghost<spec_fn(T, T) -> bool>,
) -> (sorted: Vec<T>)
    requires
        forall|a: &T, b: &T| #[trigger] less.requires((a, b)),
        forall|a: &T, b: &T, r: bool| #[trigger] less.ensures((a, b), r) ==> r == lt(*a, *b),
    ensures
        is_sorted_from(items@, lt, sorted@),
{
    let ghost all = items@;
    let mut items = items;
    let mut sorted: Vec<T> = Vec::new();
    let ghost mut order: Seq<int> = Seq::empty();
    while items.len() > 0
        invariant
            items@ == all.take(items@.len() as int),
            items@.len() <= all.len(),
            order.len() == all.len() - items@.len(),
            forall|i: int|
                0 <= i < order.len() ==> items@.len() <= #[trigger] order[i] < all.len(),
            order.no_duplicates(),
            sorted@ == picked(all, order),
            is_ordering(all, lt) ==> forall|i: int, j: int|
                0 <= i < j < order.len() ==> #[trigger] precedes(all, lt, order[i], order[j]),
            forall|a: &T, b: &T| #[trigger] less.requires((a, b)),
            forall|a: &T, b: &T, r: bool| #[trigger] less.ensures((a, b), r) ==> r == lt(*a, *b),
        decreases items@.len(),
    {
        let ghost k: int = items@.len() - 1;
        if let Some(item) = items.pop() {
            assert(item == all[k]);
            assert(items@ =~= all.take(k));
            let mut at: usize = 0;
            while at < sorted.len() && less(&sorted[at], &item)
                invariant
                    at <= sorted.len(),
                    sorted@ == picked(all, order),
                    forall|i: int| 0 <= i < at ==> lt(#[trigger] sorted@[i], item),
                    forall|a: &T, b: &T| #[trigger] less.requires((a, b)),
                    forall|a: &T, b: &T, r: bool| #[trigger]
                        less.ensures((a, b), r) ==> r == lt(*a, *b),
                ensures
                    at <= sorted.len(),
                    sorted@ == picked(all, order),
                    forall|i: int| 0 <= i < at ==> lt(#[trigger] sorted@[i], item),
                    at < sorted.len() ==> !lt(sorted@[at as int], item),
                decreases sorted.len() - at,
            {
                at += 1;
            }
            sorted.insert(at, item);
            proof {
                let more = order.insert(at as int, k);
                assert(sorted@ =~= picked(all, more));
                assert forall|i: int, j: int| 0 <= i < j < more.len() implies more[i] != more[j] by {
                    if i != at && j != at {
                        let i0 = if i < at { i } else { i - 1 };
                        let j0 = if j < at { j } else { j - 1 };
                        assert(order[i0] != order[j0]);
                    }
                }
                if is_ordering(all, lt) {
                    assert forall|i: int, j: int| 0 <= i < j < more.len() implies #[trigger] precedes(
                        all,
                        lt,
                        more[i],
                        more[j],
                    ) by {
                        let i0 = if i < at { i } else { i - 1 };
                        let j0 = if j < at { j } else { j - 1 };
                        if i != at && j != at {
                            assert(precedes(all, lt, order[i0], order[j0]));
                        } else if j == at {
                            assert(lt(picked(all, order)[i], item));
                        } else {
                            assert(!lt(all[order[at as int]], item));
                            if j0 != at {
                                assert(precedes(all, lt, order[at as int], order[j0]));
                                assert(!lt(all[order[j0]], all[order[at as int]]));
                                assert(!lt(all[order[at as int]], all[k]));
                            }
                            assert(!lt(all[order[j0]], all[k]));
                        }
                    }
                }
                order = more;
            }
        }
    }
    proof {
        assert(is_sorting(all, lt, order));
    }
    sorted
}

} // verus!
