use std::collections::VecDeque;
use std::ops::Index;

use vstd::prelude::*;

use crate::indexed::{same_or_cloned, IndexedSeq};
use crate::search::{partition_point, splits_at};

verus! {

/// A queue whose items keep their numbers while others leave at the front.
pub struct SeqDeque<T> {
    items: VecDeque<T>,
    offset: usize,
}

/// One end of a range of item numbers.
#[derive(Clone, Copy, PartialEq, Eq, Debug)]
pub enum IndexBound {
    Included(usize),
    Excluded(usize),
    Unbounded,
}

impl IndexBound {
    /// The number of the first item in a range that starts at this bound.
    pub open spec fn first(self, items_start: int) -> int {
        match self {
            IndexBound::Included(index) => index as int,
            IndexBound::Excluded(index) => index + 1,
            IndexBound::Unbounded => items_start,
        }
    }

    /// One past the number of the last item in a range that ends at this bound.
    pub open spec fn past_last(self, items_end: int) -> int {
        match self {
            IndexBound::Included(index) => index + 1,
            IndexBound::Excluded(index) => index as int,
            IndexBound::Unbounded => items_end,
        }
    }
}

/// [`VecDeque::get_mut`]: a mutable reference to the item at `index`, or `None` where
/// there is no such item. Only that item can change through it.
#[verifier::external_body]
fn get_mut_at<T>(items: &mut VecDeque<T>, index: usize) -> (item: Option<&mut T>)
    ensures
        match item {
            Some(value) => {
                &&& index < old(items)@.len()
                &&& *value == old(items)@[index as int]
                &&& final(items)@ == old(items)@.update(index as int, *final(value))
            },
            None => index >= old(items)@.len() && final(items)@ == old(items)@,
        },
{
    items.get_mut(index)
}

impl<T> View for SeqDeque<T> {
    type V = IndexedSeq<T>;

    closed spec fn view(&self) -> IndexedSeq<T> {
        IndexedSeq { start: self.offset as int, items: self.items@ }
    }
}

impl<T> SeqDeque<T> {
    /// Every item's number is a `usize`, and so is the next one.
    pub open spec fn wf(&self) -> bool {
        self@.end() <= usize::MAX
    }

    /// The queue without items, whose first item will be numbered zero.
    pub fn new() -> (deque: Self)
        ensures
            deque.wf(),
            deque@ == IndexedSeq::<T>::empty(0),
    {
        SeqDeque { items: VecDeque::new(), offset: 0 }
    }

    /// Appends an item.
    pub fn push_back(&mut self, value: T)
        requires
            old(self)@.end() < usize::MAX,
        ensures
            final(self).wf(),
            final(self)@ == old(self)@.push_back(value),
    {
        self.items.push_back(value);
    }

    /// The number of the first item of which `pred` does not hold, where `pred` holds
    /// of the items before it and of none after it.
    ///
    /// Where the items are not split by `pred` in this way, the result is some number
    /// between that of the first item and one past that of the last.
    pub fn partition_point<P>(&self, pred: P) -> (index: usize)
        where
            P: FnMut(&T) -> bool,
        requires
            self.wf(),
            forall|i: int|
                0 <= i < self@.len() ==> call_requires(pred, (&#[trigger] self@.items[i],)),
        ensures
            self@.start <= index <= self@.end(),
            forall|count: int|
                splits_at(self@.items, pred, count) ==> index == self@.start + count,
    {
        partition_point(&self.items, pred) + self.offset
    }

    /// Removes the items numbered below `index`.
    pub fn remove_front(&mut self, index: usize)
        requires
            old(self).wf(),
            old(self)@.start <= index <= old(self)@.end(),
        ensures
            final(self).wf(),
            final(self)@ == old(self)@.remove_front(index as int),
            final(self)@.start == index,
    {
        let count: usize = index - self.offset;
        let mut removed: usize = 0;
        while removed < count
            invariant
                removed <= count <= old(self).items@.len(),
                self.items@ == old(self).items@.skip(removed as int),
                self.offset == old(self).offset,
            decreases count - removed,
        {
            self.items.pop_front();
            removed = removed + 1;
        }
        self.offset = index;
        assert(self@.items =~= old(self)@.remove_front(index as int).items);
    }

    /// The number of the first item.
    pub fn start_index(&self) -> (index: usize)
        ensures
            index == self@.start,
    {
        self.offset
    }

    /// One past the number of the last item.
    pub fn end_index(&self) -> (index: usize)
        requires
            self.wf(),
        ensures
            index == self@.end(),
    {
        self.offset + self.items.len()
    }

    /// The items between two bounds, in order.
    pub fn range(&self, start: IndexBound, end: IndexBound) -> (items: Vec<&T>)
        requires
            self.wf(),
            self@.start <= start.first(self@.start) <= end.past_last(self@.end()) <= self@.end(),
        ensures
            items@.len() == end.past_last(self@.end()) - start.first(self@.start),
            forall|i: int|
                0 <= i < items@.len() ==> *(#[trigger] items@[i]) == self@.at(
                    start.first(self@.start) + i,
                ),
    {
        let first: usize = match start {
            IndexBound::Included(index) => index,
            IndexBound::Excluded(index) => index + 1,
            IndexBound::Unbounded => self.start_index(),
        };
        let past_last: usize = match end {
            IndexBound::Included(index) => index + 1,
            IndexBound::Excluded(index) => index,
            IndexBound::Unbounded => self.end_index(),
        };
        let mut items: Vec<&T> = Vec::new();
        let mut index: usize = first;
        while index < past_last
            invariant
                self.wf(),
                self@.start <= first <= index <= past_last <= self@.end(),
                items@.len() == index - first,
                forall|i: int| 0 <= i < items@.len() ==> *(#[trigger] items@[i]) == self@.at(first + i),
            decreases past_last - index,
        {
            items.push(&self.items[index - self.offset]);
            index = index + 1;
        }
        items
    }

    pub fn is_empty(&self) -> (empty: bool)
        ensures
            empty == (self@.len() == 0),
    {
        self.items.len() == 0
    }

    /// The first item, if there is one.
    pub fn front(&self) -> (item: Option<&T>)
        ensures
            item == if self@.len() > 0 {
                Some(&self@.items.first())
            } else {
                None
            },
    {
        if self.items.len() > 0 {
            Some(&self.items[0])
        } else {
            None
        }
    }

    /// The last item, if there is one.
    pub fn back(&self) -> (item: Option<&T>)
        ensures
            item == if self@.len() > 0 {
                Some(&self@.items.last())
            } else {
                None
            },
    {
        let len: usize = self.items.len();
        if len > 0 {
            Some(&self.items[len - 1])
        } else {
            None
        }
    }

    /// All items, in order.
    pub fn iter(&self) -> (items: Vec<&T>)
        requires
            self.wf(),
        ensures
            items@.len() == self@.len(),
            forall|i: int| 0 <= i < items@.len() ==> *(#[trigger] items@[i]) == self@.items[i],
    {
        self.range(IndexBound::Unbounded, IndexBound::Unbounded)
    }

    /// The item numbered `index`, if it is in the queue.
    pub fn get(&self, index: usize) -> (item: Option<&T>)
        requires
            self.wf(),
        ensures
            item == if self@.has(index as int) {
                Some(&self@.at(index as int))
            } else {
                None
            },
    {
        if index >= self.start_index() && index < self.end_index() {
            Some(&self.items[index - self.offset])
        } else {
            None
        }
    }

    /// The item numbered `index`, if it is in the queue, to be changed in place.
    pub fn get_mut(&mut self, index: usize) -> (item: Option<&mut T>)
        requires
            old(self).wf(),
        ensures
            match item {
                Some(value) => {
                    &&& old(self)@.has(index as int)
                    &&& *value == old(self)@.at(index as int)
                    &&& final(self)@.start == old(self)@.start
                    &&& final(self)@.items == old(self)@.items.update(
                        index - old(self)@.start,
                        *final(value),
                    )
                },
                None => !old(self)@.has(index as int) && final(self)@ == old(self)@,
            },
    {
        if index >= self.start_index() && index < self.end_index() {
            let place: usize = index - self.offset;
            get_mut_at(&mut self.items, place)
        } else {
            None
        }
    }
}

impl<T> Default for SeqDeque<T> {
    fn default() -> (deque: Self)
        ensures
            deque.wf(),
            deque@ == IndexedSeq::<T>::empty(0),
    {
        SeqDeque::new()
    }
}

impl<T: Clone> Clone for SeqDeque<T> {
    fn clone(&self) -> (deque: Self)
        ensures
            same_or_cloned(self@, deque@),
    {
        let items = self.items.clone();
        SeqDeque { items, offset: self.offset }
    }
}

impl<T> Index<usize> for SeqDeque<T> {
    type Output = T;

    /// The item numbered `index`, which must be in the queue.
    fn index(&self, index: usize) -> (item: &T)
        ensures
            *item == self@.at(index as int),
    {
        &self.items[index - self.offset]
    }
}

impl<T> vstd::std_specs::core::IndexSpecImpl<usize> for SeqDeque<T> {
    open spec fn index_req(&self, index: &usize) -> bool {
        self@.has(*index as int)
    }
}

/// A range that takes in its bounds holds one item more at each of them than one that does not.
/// Without a bound it reaches to the end of what there is.
pub proof fn bounds_are_taken_in_or_not(index: usize, items_start: int, items_end: int)
    ensures
        IndexBound::Included(index).first(items_start) == index,
        IndexBound::Excluded(index).first(items_start) == index + 1,
        IndexBound::Unbounded.first(items_start) == items_start,
        IndexBound::Excluded(index).past_last(items_end) == index,
        IndexBound::Included(index).past_last(items_end) == index + 1,
        IndexBound::Unbounded.past_last(items_end) == items_end,
{
}

} // verus!
