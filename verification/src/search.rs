//! Finding the place where a queue goes over from some items to others.

use std::collections::VecDeque;

use vstd::prelude::*;

verus! {

/// Whether `pred` holds of the first `count` items and of none after them.
pub open spec fn splits_at<T, P: FnMut(&T) -> bool>(items: Seq<T>, pred: P, count: int) -> bool {
    &&& 0 <= count <= items.len()
    &&& forall|i: int|
        0 <= i < count ==> !#[trigger] call_ensures(pred, (&items[i],), false)
    &&& forall|i: int|
        count <= i < items.len() ==> !#[trigger] call_ensures(pred, (&items[i],), true)
}

/// A place between an item of which `pred` holds, if one comes before, and one of which it
/// does not hold, if one comes after. Where `pred` holds of some items that come first and
/// of no others, that is the number of those.
pub fn partition_point<T, P>(items: &VecDeque<T>, pred: P) -> (count: usize)
    where
        P: FnMut(&T) -> bool,
    requires
        forall|i: int| 0 <= i < items@.len() ==> call_requires(pred, (&#[trigger] items@[i],)),
    ensures
        count <= items@.len(),
        count > 0 ==> call_ensures(pred, (&items@[count - 1],), true),
        count < items@.len() ==> call_ensures(pred, (&items@[count as int],), false),
        forall|split: int| #[trigger] splits_at(items@, pred, split) ==> count == split,
{
    let mut test = pred;
    let mut low: usize = 0;
    let mut high: usize = items.len();
    while low < high
        invariant
            test == pred,
            low <= high <= items@.len(),
            forall|i: int|
                0 <= i < items@.len() ==> call_requires(pred, (&#[trigger] items@[i],)),
            low > 0 ==> call_ensures(pred, (&items@[low - 1],), true),
            high < items@.len() ==> call_ensures(pred, (&items@[high as int],), false),
        decreases high - low,
    {
        let middle: usize = low + (high - low) / 2;
        if test(&items[middle]) {
            low = middle + 1;
        } else {
            high = middle;
        }
    }
    low
}

} // verus!
