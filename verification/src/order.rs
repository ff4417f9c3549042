//! Lists in order, and what inserting into one does.

use vstd::prelude::*;

verus! {

/// Nothing comes before itself, and what comes before something comes before all
/// that it comes before.
pub open spec fn is_order<T>(before: spec_fn(T, T) -> bool) -> bool {
    &&& forall|a: T| !#[trigger] before(a, a)
    &&& forall|a: T, b: T, c: T| #[trigger] before(a, b) && #[trigger] before(b, c) ==> before(a, c)
}

/// None comes before one that stands in front of it.
pub open spec fn in_order<T>(items: Seq<T>, before: spec_fn(T, T) -> bool) -> bool {
    forall|i: int, j: int|
        0 <= i < j < items.len() ==> !before(#[trigger] items[j], #[trigger] items[i])
}

/// An item that is put in front of the first one that it comes before leaves the
/// list in order.
pub proof fn lemma_insert<T>(items: Seq<T>, at: int, item: T, before: spec_fn(T, T) -> bool)
    requires
        is_order(before),
        in_order(items, before),
        0 <= at <= items.len(),
        forall|j: int| 0 <= j < at ==> !before(item, #[trigger] items[j]),
        at < items.len() ==> before(item, items[at]),
    ensures
        in_order(items.insert(at, item), before),
        items.insert(at, item).to_multiset() == items.to_multiset().insert(item),
{
    broadcast use vstd::seq_lib::group_to_multiset_ensures;

    let after = items.insert(at, item);
    assert forall|i: int, j: int| 0 <= i < j < after.len() implies !before(
        #[trigger] after[j],
        #[trigger] after[i],
    ) by {
        let a = if i < at {
            i
        } else {
            i - 1
        };
        let b = if j < at {
            j
        } else {
            j - 1
        };
        if i == at {
            assert(after[j] == items[b]);
            if before(items[b], item) {
                assert(before(items[b], items[at]));
                assert(b > at ==> !before(items[b], items[at]));
            }
        } else if j == at {
            assert(after[i] == items[a]);
        } else {
            assert(after[i] == items[a] && after[j] == items[b]);
        }
    }
}

} // verus!
