use std::collections::VecDeque;
use std::ops::Index;
use std::sync::Arc;

use vstd::prelude::*;
use vstd::std_specs::cmp::PartialEqSpec;
use vstd::string::*;

use crate::indexed::{
    continues, eq_is_reflexive, extends, may_be_equal, may_differ, same_or_cloned, IndexedSeq,
};
use crate::shared::{make_mut, ptr_eq};
use crate::text::{decimal, decimal_text, signed_decimal, signed_decimal_text};

verus! {

/// The number of items in a chunk.
pub const CHUNK_SIZE: usize = 256;

/// A double-ended queue whose items keep their numbers, stored in chunks that the
/// clones of a queue share.
///
/// Item `i` stands in slot `i mod CHUNK_SIZE` of its chunk, so two queues that hold
/// an item under the same number hold it in the same slot.
pub struct ChunkedDeque<T> {
    chunks: VecDeque<Arc<Vec<Option<T>>>>,
    start_index: isize,
    end_index: isize,
}

/// How many chunks the items numbered from `start` up to `end` spread over.
pub open spec fn chunks_spanned(start: int, end: int) -> int {
    if start >= end {
        0
    } else {
        (end - 1) / (CHUNK_SIZE as int) - start / (CHUNK_SIZE as int) + 1
    }
}

/// How many chunks lie between the ones of the items numbered `start` and `index`.
pub open spec fn chunks_from(start: int, index: int) -> int {
    index / (CHUNK_SIZE as int) - start / (CHUNK_SIZE as int)
}

/// The chunk that holds item `index`, counted from the chunk of item zero.
fn chunk_of(index: isize) -> (chunk: isize)
    ensures
        chunk == index as int / CHUNK_SIZE as int,
{
    index.checked_div_euclid(CHUNK_SIZE as isize).unwrap()
}

/// The slot that item `index` has in its chunk.
fn slot_of(index: isize) -> (slot: usize)
    ensures
        slot == index as int % CHUNK_SIZE as int,
{
    index.checked_rem_euclid(CHUNK_SIZE as isize).unwrap() as usize
}

/// A chunk with nothing in it.
fn empty_chunk<T>() -> (chunk: Arc<Vec<Option<T>>>)
    ensures
        chunk@.len() == CHUNK_SIZE,
        forall|i: int| 0 <= i < CHUNK_SIZE ==> #[trigger] chunk@[i] is None,
{
    let mut slots: Vec<Option<T>> = Vec::new();
    while slots.len() < CHUNK_SIZE
        invariant
            slots.len() <= CHUNK_SIZE,
            forall|i: int| 0 <= i < slots@.len() ==> #[trigger] slots@[i] is None,
        decreases CHUNK_SIZE - slots.len(),
    {
        slots.push(None);
    }
    Arc::new(slots)
}

/// Whether an item stands in a place, counted from the first slot of the first of some
/// chunks, which are followed by slots that do not make up a chunk yet.
spec fn placed<T>(
    chunks: Seq<Arc<Vec<Option<T>>>>,
    slots: Seq<Option<T>>,
    place: int,
    item: T,
) -> bool {
    if place / (CHUNK_SIZE as int) < chunks.len() {
        chunks[place / (CHUNK_SIZE as int)]@[place % CHUNK_SIZE as int] == Some(item)
    } else {
        slots[place - chunks.len() * CHUNK_SIZE] == Some(item)
    }
}

/// Whether a place that held `before` still holds it, or a clone of it.
pub open spec fn kept<T: Clone>(before: Option<T>, after: Option<T>) -> bool {
    &&& before is Some <==> after is Some
    &&& before is Some ==> cloned(before->0, after->0)
}

/// What a clone of a chunk holds.
proof fn cloned_slots<T: Clone>(a: &Vec<Option<T>>, b: &Vec<Option<T>>)
    requires
        cloned::<Vec<Option<T>>>(*a, *b),
    ensures
        a@.len() == b@.len(),
        forall|i: int|
            0 <= i < a@.len() ==> kept(a@[i], #[trigger] b@[i]),
{
}

/// Walks over the items of a queue, or over some that follow each other in it.
pub struct ChunkedDequeIter<'a, T> {
    deque: &'a ChunkedDeque<T>,
    current_chunk_idx: usize,
    current_offset: usize,
    end_chunk_idx: usize,
    end_offset: usize,
}

impl<'a, T> ChunkedDequeIter<'a, T> {
    /// The number of the item that comes next.
    spec fn current(&self) -> int {
        (self.deque.start_index as int / CHUNK_SIZE as int + self.current_chunk_idx) * CHUNK_SIZE
            + self.current_offset
    }

    /// One past the number of the item that comes last.
    spec fn end(&self) -> int {
        (self.deque.start_index as int / CHUNK_SIZE as int + self.end_chunk_idx) * CHUNK_SIZE
            + self.end_offset
    }

    pub closed spec fn wf(&self) -> bool {
        &&& self.deque.valid()
        &&& self.current_offset < CHUNK_SIZE
        &&& self.end_offset < CHUNK_SIZE
        &&& self.deque.start_index <= self.current() <= self.end() <= self.deque.end_index
    }

    /// The items that are still to come.
    pub closed spec fn remaining(&self) -> Seq<T> {
        self.deque.run(self.current(), self.end())
    }

    /// The next item, if one is left.
    pub fn next(&mut self) -> (item: Option<&'a T>)
        requires
            old(self).wf(),
        ensures
            final(self).wf(),
            match item {
                Some(value) => {
                    &&& old(self).remaining().len() > 0
                    &&& *value == old(self).remaining().first()
                    &&& final(self).remaining() == old(self).remaining().drop_first()
                },
                None => old(self).remaining().len() == 0 && *final(self) == *old(self),
            },
    {
        if self.current_chunk_idx > self.end_chunk_idx || (self.current_chunk_idx
            == self.end_chunk_idx && self.current_offset >= self.end_offset) {
            return None;
        }
        let chunk = &self.deque.chunks[self.current_chunk_idx];
        let element = chunk[self.current_offset].as_ref();
        assert(chunk@[self.current_offset as int] == self.deque.found(self.current()));
        if element.is_none() {
            return None;
        }
        self.current_offset = self.current_offset + 1;
        if self.current_offset >= CHUNK_SIZE {
            self.current_offset = 0;
            self.current_chunk_idx = self.current_chunk_idx + 1;
        }
        assert(self.remaining() =~= old(self).remaining().drop_first());
        element
    }

    /// All the items that are left, in order.
    pub fn collect(self) -> (items: Vec<&'a T>)
        requires
            self.wf(),
        ensures
            items@.len() == self.remaining().len(),
            forall|i: int| 0 <= i < items@.len() ==> *(#[trigger] items@[i]) == self.remaining()[i],
    {
        let ghost all = self.remaining();
        let mut iter = self;
        let mut items: Vec<&'a T> = Vec::new();
        loop
            invariant
                iter.wf(),
                items@.len() + iter.remaining().len() == all.len(),
                forall|i: int| 0 <= i < items@.len() ==> *(#[trigger] items@[i]) == all[i],
                iter.remaining() == all.skip(items@.len() as int),
            ensures
                items@.len() == all.len(),
            decreases iter.remaining().len(),
        {
            match iter.next() {
                Some(item) => {
                    items.push(item);
                },
                None => {
                    break;
                },
            }
        }
        items
    }
}

impl<T> View for ChunkedDeque<T> {
    type V = IndexedSeq<T>;

    closed spec fn view(&self) -> IndexedSeq<T> {
        IndexedSeq {
            start: self.start_index as int,
            items: Seq::new(
                (self.end_index - self.start_index) as nat,
                |i: int| self.found(self.start_index + i)->0,
            ),
        }
    }
}

impl<T> ChunkedDeque<T> {
    /// What stands in the slot in which item `index` is looked for. There may be no such
    /// slot, or nothing in it.
    pub closed spec fn found(&self, index: int) -> Option<T> {
        let chunk = chunks_from(self.start_index as int, index);
        if 0 <= chunk < self.chunks@.len() {
            self.chunks@[chunk]@[index % CHUNK_SIZE as int]
        } else {
            None
        }
    }

    /// How many chunks are allocated.
    pub closed spec fn chunks_held(&self) -> int {
        self.chunks@.len() as int
    }

    /// How many chunks are allocated beyond those that the items spread over.
    pub open spec fn spare_chunks(&self) -> int {
        self.chunks_held() - chunks_spanned(self@.start, self@.end())
    }

    /// There is a chunk for every item.
    pub closed spec fn valid(&self) -> bool {
        &&& self.start_index <= self.end_index
        &&& self.chunks@.len() >= chunks_spanned(self.start_index as int, self.end_index as int)
        &&& forall|c: int| 0 <= c < self.chunks@.len() ==> #[trigger] self.chunks@[c]@.len() == CHUNK_SIZE
    }

    /// Every item is found under its number. An item that is appended while there are spare
    /// chunks is not: see [`ChunkedDeque::push_back`].
    pub open spec fn wf(&self) -> bool {
        &&& self.valid()
        &&& forall|i: int| self@.has(i) ==> (#[trigger] self.found(i)) is Some
    }

    /// The items from number `from` up to `to`, as far as they are found: those that come
    /// before the first one that is not.
    pub open spec fn run(&self, from: int, to: int) -> Seq<T>
        decreases to - from,
    {
        if from < to && self.found(from) is Some {
            seq![self.found(from)->0] + self.run(from + 1, to)
        } else {
            Seq::empty()
        }
    }

    /// The items of a queue are those that are found under their numbers. Where all are found,
    /// a run of them is cut short nowhere.
    pub proof fn items_are_found(&self, from: int, to: int)
        requires
            self.wf(),
            self@.start <= from <= to <= self@.end(),
        ensures
            forall|i: int| from <= i < to ==> #[trigger] self@.at(i) == self.found(i)->0,
            self.run(from, to) == self@.items.subrange(from - self@.start, to - self@.start),
        decreases to - from,
    {
        if from < to {
            assert(self@.has(from));
            assert(self.found(from) is Some);
            self.items_are_found(from + 1, to);
            assert(self.run(from, to) =~= self@.items.subrange(
                from - self@.start,
                to - self@.start,
            ));
        } else {
            assert(self@.items.subrange(from - self@.start, to - self@.start) =~= Seq::empty());
        }
    }

    /// Items are numbered by `isize`.
    pub proof fn start_is_isize(&self)
        requires
            self.valid(),
        ensures
            isize::MIN <= self@.start,
            self@.end() <= isize::MAX,
    {
    }

    /// The queue without items or chunks, whose first item will be numbered zero.
    pub fn new() -> (deque: Self)
        ensures
            deque.wf(),
            deque@ == IndexedSeq::<T>::empty(0),
            deque.chunks_held() == 0,
            forall|i: int| #[trigger] deque.found(i) is None,
    {
        let deque = ChunkedDeque { chunks: VecDeque::new(), start_index: 0, end_index: 0 };
        assert(deque@.items =~= Seq::empty());
        deque
    }

    /// The queue without items or chunks, whose first item will be numbered `index`.
    pub fn starting_at(index: isize) -> (deque: Self)
        ensures
            deque.wf(),
            deque@ == IndexedSeq::<T>::empty(index as int),
            deque.chunks_held() == 0,
            forall|i: int| #[trigger] deque.found(i) is None,
    {
        let deque = ChunkedDeque { chunks: VecDeque::new(), start_index: index, end_index: index };
        assert(deque@.items =~= Seq::empty());
        deque
    }

    /// The number of the first item.
    pub fn start_index(&self) -> (index: isize)
        ensures
            index == self@.start,
    {
        self.start_index
    }

    /// One past the number of the last item.
    pub fn end_index(&self) -> (index: isize)
        requires
            self.valid(),
        ensures
            index == self@.end(),
    {
        self.end_index
    }

    /// The number of items.
    pub fn len(&self) -> (len: usize)
        requires
            self.valid(),
            self@.len() <= isize::MAX,
        ensures
            len == self@.len(),
    {
        (self.end_index - self.start_index) as usize
    }

    pub fn is_empty(&self) -> (empty: bool)
        requires
            self.valid(),
        ensures
            empty == (self@.len() == 0),
    {
        self.start_index == self.end_index
    }

    /// A description: the numbers of the items, and how many chunks hold them.
    pub fn describe(&self) -> (text: String)
        requires
            self.valid(),
        ensures
            text@ == "ChunkedDeque("@ + signed_decimal(self@.start) + ".."@ + signed_decimal(
                self@.end(),
            ) + ", "@ + decimal(self.chunks_held() as nat) + " chunks)"@,
    {
        let mut text = "ChunkedDeque(".to_owned();
        let start = signed_decimal_text(self.start_index());
        text.append(start.as_str());
        text.append("..");
        let end = signed_decimal_text(self.end_index());
        text.append(end.as_str());
        text.append(", ");
        let chunks = decimal_text(self.chunk_count() as u64);
        text.append(chunks.as_str());
        text.append(" chunks)");
        text
    }

    /// The number of chunks that are allocated.
    pub fn chunk_count(&self) -> (count: usize)
        ensures
            count == self.chunks_held(),
    {
        self.chunks.len()
    }

    /// Where item `index` stands: the position of its chunk among those held, and its
    /// slot in it.
    fn index_to_chunk_and_offset(&self, index: isize) -> (place: (usize, usize))
        requires
            self.start_index <= index,
        ensures
            place.0 == index as int / CHUNK_SIZE as int - self.start_index as int / CHUNK_SIZE as int,
            place.1 == index as int % CHUNK_SIZE as int,
    {
        let absolute_chunk: isize = chunk_of(index);
        let chunk_offset: isize = chunk_of(self.start_index);
        ((absolute_chunk - chunk_offset) as usize, slot_of(index))
    }

    /// The item numbered `index`, if it is in the queue.
    pub fn get(&self, index: isize) -> (item: Option<&T>)
        requires
            self.valid(),
            self@.has(index as int) ==> self.found(index as int) is Some,
        ensures
            item == if self@.has(index as int) {
                Some(&self@.at(index as int))
            } else {
                None
            },
    {
        if index < self.start_index || index >= self.end_index {
            return None;
        }
        let (chunk_idx, offset) = self.index_to_chunk_and_offset(index);
        self.chunks[chunk_idx][offset].as_ref()
    }

    /// Appends an item.
    ///
    /// Each spare chunk puts the item one chunk further than it is looked for. So while there
    /// are any, the item is not found under its number: what is found there is what was in the
    /// slot before.
    #[verifier::rlimit(30)]
    pub fn push_back(&mut self, value: T)
        where
            T: Clone,
        requires
            old(self).valid(),
            old(self)@.end() < isize::MAX,
        ensures
            final(self).valid(),
            final(self)@.start == old(self)@.start,
            final(self)@.len() == old(self)@.len() + 1,
            final(self).spare_chunks() == old(self).spare_chunks(),
            final(self).found(old(self)@.end() + CHUNK_SIZE * old(self).spare_chunks()) == Some(
                value,
            ),
            forall|i: int|
                old(self)@.start <= i && i != old(self)@.end() + CHUNK_SIZE * old(
                    self,
                ).spare_chunks() ==> kept(old(self).found(i), #[trigger] final(self).found(i)),
            old(self).wf() && old(self).spare_chunks() == 0 ==> {
                &&& final(self).wf()
                &&& same_or_cloned(old(self)@.push_back(value), final(self)@)
                &&& final(self)@.items.last() == value
            },
    {
        let end_offset: usize = slot_of(self.end_index);
        if self.is_empty() || end_offset == 0 {
            self.chunks.push_back(empty_chunk());
        }
        let mut shared = self.chunks.pop_back().unwrap();
        let ghost before = shared;
        let chunk = make_mut(&mut shared);
        proof {
            cloned_slots(&*before, &*chunk);
        }
        chunk.set(end_offset, Some(value));
        self.chunks.push_back(shared);
        self.end_index = self.end_index + 1;
        proof {
            let place = old(self)@.end() + CHUNK_SIZE * old(self).spare_chunks();
            assert(self.found(place) == Some(value));
            assert forall|i: int| old(self).start_index <= i && i != place implies kept(
                old(self).found(i),
                #[trigger] self.found(i),
            ) by {}
            if old(self).wf() && old(self).spare_chunks() == 0 {
                let a = old(self)@.push_back(value);
                assert forall|i: int| self@.has(i) implies (#[trigger] self.found(i)) is Some by {
                    if i < old(self).end_index {
                        assert(old(self)@.has(i));
                    }
                }
                assert forall|i: int| 0 <= i < a.items.len() implies #[trigger] cloned(
                    a.items[i],
                    self@.items[i],
                ) by {
                    if i < old(self)@.len() {
                        assert(old(self)@.has(self.start_index + i));
                        assert(kept(
                            old(self).found(self.start_index + i),
                            self.found(self.start_index + i),
                        ));
                    }
                }
            }
        }
    }

    /// Prepends an item. Chunks that an empty queue had are spare ones behind its chunk.
    #[verifier::rlimit(30)]
    pub fn push_front(&mut self, value: T)
        where
            T: Clone,
        requires
            old(self).valid(),
            old(self)@.start > isize::MIN,
        ensures
            final(self).valid(),
            final(self)@.start == old(self)@.start - 1,
            final(self)@.len() == old(self)@.len() + 1,
            final(self).spare_chunks() == old(self).spare_chunks(),
            final(self).found(final(self)@.start) == Some(value),
            forall|i: int|
                old(self)@.start <= i ==> if old(self)@.len() > 0 || old(self)@.start
                    % CHUNK_SIZE as int == 0 {
                    kept(old(self).found(i), #[trigger] final(self).found(i))
                } else if i / CHUNK_SIZE as int == old(self)@.start / CHUNK_SIZE as int {
                    final(self).found(i) is None
                } else {
                    kept(old(self).found(i - CHUNK_SIZE), final(self).found(i))
                },
            old(self).wf() ==> {
                &&& final(self).wf()
                &&& same_or_cloned(old(self)@.push_front(value), final(self)@)
                &&& final(self)@.items.first() == value
            },
    {
        let new_start: isize = self.start_index - 1;
        let new_start_offset: usize = slot_of(new_start);
        if self.is_empty() || new_start_offset == CHUNK_SIZE - 1 {
            self.chunks.push_front(empty_chunk());
        }
        let mut shared = self.chunks.pop_front().unwrap();
        let ghost before = shared;
        let chunk = make_mut(&mut shared);
        proof {
            cloned_slots(&*before, &*chunk);
        }
        chunk.set(new_start_offset, Some(value));
        self.chunks.push_front(shared);
        self.start_index = new_start;
        proof {
            assert forall|i: int| old(self).start_index <= i implies if old(self)@.len() > 0 || old(
                self,
            )@.start % CHUNK_SIZE as int == 0 {
                kept(old(self).found(i), #[trigger] self.found(i))
            } else if i / CHUNK_SIZE as int == old(self)@.start / CHUNK_SIZE as int {
                self.found(i) is None
            } else {
                kept(old(self).found(i - CHUNK_SIZE), self.found(i))
            } by {}
            if old(self).wf() {
                let a = old(self)@.push_front(value);
                assert forall|i: int| self@.has(i) implies (#[trigger] self.found(i)) is Some by {
                    if i > self.start_index {
                        assert(old(self)@.has(i));
                    }
                }
                assert forall|i: int| 0 <= i < a.items.len() implies #[trigger] cloned(
                    a.items[i],
                    self@.items[i],
                ) by {
                    if i > 0 {
                        assert(old(self)@.has(self.start_index + i));
                        assert(kept(
                            old(self).found(self.start_index + i),
                            self.found(self.start_index + i),
                        ));
                    }
                }
            }
        }
    }

    /// Takes out the last item. What comes out is the item itself or a clone of it.
    ///
    /// Where this empties the queue in the middle of a chunk, that chunk stays behind as a
    /// spare one.
    #[verifier::rlimit(30)]
    pub fn pop_back(&mut self) -> (item: Option<T>)
        where
            T: Clone,
        requires
            old(self).valid(),
            old(self)@.len() > 0 ==> old(self).found(old(self)@.end() - 1) is Some,
        ensures
            final(self).valid(),
            match item {
                Some(value) => {
                    &&& old(self)@.len() > 0
                    &&& cloned(old(self)@.items.last(), value)
                    &&& final(self)@.start == old(self)@.start
                    &&& final(self)@.len() == old(self)@.len() - 1
                    &&& final(self).spare_chunks() == old(self).spare_chunks() + if old(self)@.len() == 1
                        && old(self)@.start % CHUNK_SIZE as int != 0 {
                        1int
                    } else {
                        0
                    }
                    &&& forall|i: int|
                        old(self)@.start <= i ==> if i != final(self)@.end() && chunks_from(
                            old(self)@.start,
                            i,
                        ) < final(self).chunks_held() {
                            kept(old(self).found(i), #[trigger] final(self).found(i))
                        } else {
                            final(self).found(i) is None
                        }
                    &&& old(self).wf() ==> final(self).wf() && same_or_cloned(
                        old(self)@.pop_back(),
                        final(self)@,
                    )
                },
                None => old(self)@.len() == 0 && *final(self) == *old(self),
            },
    {
        if self.is_empty() {
            return None;
        }
        let back_idx: isize = self.end_index - 1;
        let (chunk_idx, offset) = self.index_to_chunk_and_offset(back_idx);
        assert(self.found(back_idx as int) is Some);
        let mut shared = self.chunks.remove(chunk_idx).unwrap();
        let ghost before = shared;
        let chunk = make_mut(&mut shared);
        proof {
            cloned_slots(&*before, &*chunk);
        }
        let value = chunk[offset].take();
        self.chunks.insert(chunk_idx, shared);
        self.end_index = back_idx;
        if offset == 0 {
            self.chunks.pop_back();
        }
        proof {
            assert forall|i: int| self.start_index <= i implies if i != back_idx && chunks_from(
                self.start_index as int,
                i,
            ) < self.chunks@.len() {
                kept(old(self).found(i), #[trigger] self.found(i))
            } else {
                self.found(i) is None
            } by {}
            if old(self).wf() {
                let a = old(self)@.pop_back();
                assert forall|i: int| self@.has(i) implies (#[trigger] self.found(i)) is Some by {
                    assert(old(self)@.has(i));
                }
                assert forall|i: int| 0 <= i < a.items.len() implies #[trigger] cloned(
                    a.items[i],
                    self@.items[i],
                ) by {
                    assert(old(self)@.has(self.start_index + i));
                    assert(kept(
                        old(self).found(self.start_index + i),
                        self.found(self.start_index + i),
                    ));
                }
            }
        }
        value
    }

    /// Takes out the first item. What comes out is the item itself or a clone of it.
    ///
    /// Where this empties the queue in the middle of a chunk, that chunk stays behind as a
    /// spare one.
    #[verifier::rlimit(30)]
    pub fn pop_front(&mut self) -> (item: Option<T>)
        where
            T: Clone,
        requires
            old(self).valid(),
            old(self)@.len() > 0 ==> old(self).found(old(self)@.start) is Some,
        ensures
            final(self).valid(),
            match item {
                Some(value) => {
                    &&& old(self)@.len() > 0
                    &&& cloned(old(self)@.items.first(), value)
                    &&& final(self)@.start == old(self)@.start + 1
                    &&& final(self)@.len() == old(self)@.len() - 1
                    &&& final(self).spare_chunks() == old(self).spare_chunks() + if old(self)@.len() == 1
                        && old(self)@.start % CHUNK_SIZE as int != CHUNK_SIZE - 1 {
                        1int
                    } else {
                        0
                    }
                    &&& forall|i: int|
                        final(self)@.start <= i ==> kept(
                            old(self).found(i),
                            #[trigger] final(self).found(i),
                        )
                    &&& old(self).wf() ==> final(self).wf() && same_or_cloned(
                        old(self)@.pop_front(),
                        final(self)@,
                    )
                },
                None => old(self)@.len() == 0 && *final(self) == *old(self),
            },
    {
        if self.is_empty() {
            return None;
        }
        let start_idx: isize = self.start_index;
        let (chunk_idx, offset) = self.index_to_chunk_and_offset(start_idx);
        assert(self.found(start_idx as int) is Some);
        let mut shared = self.chunks.remove(chunk_idx).unwrap();
        let ghost before = shared;
        let chunk = make_mut(&mut shared);
        proof {
            cloned_slots(&*before, &*chunk);
        }
        let value = chunk[offset].take();
        self.chunks.insert(chunk_idx, shared);
        assert(self.chunks@ =~= old(self).chunks@.update(0, shared));
        self.start_index = start_idx + 1;
        if offset == CHUNK_SIZE - 1 {
            self.chunks.pop_front();
            assert(self.chunks@ =~= old(self).chunks@.skip(1));
        }
        proof {
            assert forall|i: int| self.start_index <= i implies kept(
                old(self).found(i),
                #[trigger] self.found(i),
            ) by {
                let chunk = chunks_from(self.start_index as int, i);
                let earlier = chunks_from(start_idx as int, i);
                if offset == CHUNK_SIZE - 1 {
                    assert(earlier == chunk + 1);
                } else {
                    assert(earlier == chunk);
                    assert(i % CHUNK_SIZE as int != offset || chunk > 0);
                }
            }
            if old(self).wf() {
                let a = old(self)@.pop_front();
                assert forall|i: int| self@.has(i) implies (#[trigger] self.found(i)) is Some by {
                    assert(old(self)@.has(i));
                }
                assert forall|i: int| 0 <= i < a.items.len() implies #[trigger] cloned(
                    a.items[i],
                    self@.items[i],
                ) by {
                    assert(old(self)@.has(self.start_index + i));
                    assert(kept(
                        old(self).found(self.start_index + i),
                        self.found(self.start_index + i),
                    ));
                }
            }
        }
        value
    }

    /// The first item, if there is one.
    pub fn front(&self) -> (item: Option<&T>)
        requires
            self.valid(),
            self@.len() > 0 ==> self.found(self@.start) is Some,
        ensures
            item == if self@.len() > 0 {
                Some(&self@.items.first())
            } else {
                None
            },
    {
        self.get(self.start_index)
    }

    /// The last item, if there is one.
    pub fn back(&self) -> (item: Option<&T>)
        requires
            self.valid(),
            self@.len() > 0 ==> self.found(self@.end() - 1) is Some,
            self@.end() > isize::MIN,
        ensures
            item == if self@.len() > 0 {
                Some(&self@.items.last())
            } else {
                None
            },
    {
        self.get(self.end_index - 1)
    }

    /// Removes the items numbered below `index`. Where none is left, the next item
    /// will be numbered `index`.
    pub fn remove_front(&mut self, index: isize)
        requires
            old(self).valid(),
        ensures
            final(self).valid(),
            final(self)@ == old(self)@.remove_front(index as int),
            if old(self)@.start < index && old(self)@.end() <= index {
                &&& final(self).chunks_held() == 0
                &&& forall|i: int| #[trigger] final(self).found(i) is None
            } else {
                &&& final(self).spare_chunks() == old(self).spare_chunks()
                &&& forall|i: int|
                    final(self)@.start <= i ==> #[trigger] final(self).found(i) == old(self).found(i)
            },
            old(self).wf() ==> final(self).wf(),
    {
        if index <= self.start_index {
            return;
        }
        if index >= self.end_index {
            self.chunks.clear();
            self.start_index = index;
            self.end_index = index;
            assert(self@.items =~= Seq::empty());
            return;
        }
        let (chunk_idx, _offset) = self.index_to_chunk_and_offset(index);
        let mut removed: usize = 0;
        while removed < chunk_idx
            invariant
                removed <= chunk_idx <= old(self).chunks@.len(),
                self.chunks@ == old(self).chunks@.skip(removed as int),
                self.start_index == old(self).start_index,
                self.end_index == old(self).end_index,
            decreases chunk_idx - removed,
        {
            self.chunks.pop_front();
            removed = removed + 1;
        }
        self.start_index = index;
        proof {
            let a = old(self)@.remove_front(index as int);
            assert(self@.items.len() == a.items.len());
            assert forall|i: int| self.start_index <= i implies #[trigger] self.found(i) == old(
                self,
            ).found(i) by {}
            assert(self@.items =~= a.items);
        }
    }

    /// The items from number `range.start` up to `range.end`, in order.
    pub fn range(&self, range: std::ops::Range<isize>) -> (iter: ChunkedDequeIter<'_, T>)
        requires
            self.valid(),
            self@.start <= range.start <= range.end <= self@.end(),
        ensures
            iter.wf(),
            iter.remaining() == self.run(range.start as int, range.end as int),
            self.wf() ==> iter.remaining() == self@.items.subrange(
                range.start - self@.start,
                range.end - self@.start,
            ),
    {
        proof {
            if self.wf() {
                self.items_are_found(range.start as int, range.end as int);
            }
        }
        let (start_chunk_idx, start_offset) = self.index_to_chunk_and_offset(range.start);
        let (end_chunk_idx, end_offset) = self.index_to_chunk_and_offset(range.end);
        ChunkedDequeIter {
            deque: self,
            current_chunk_idx: start_chunk_idx,
            current_offset: start_offset,
            end_chunk_idx,
            end_offset,
        }
    }

    /// All items, in order.
    pub fn iter(&self) -> (iter: ChunkedDequeIter<'_, T>)
        requires
            self.valid(),
        ensures
            iter.wf(),
            iter.remaining() == self.run(self@.start, self@.end()),
            self.wf() ==> iter.remaining() == self@.items,
    {
        assert(self@.items.subrange(0, self@.len() as int) =~= self@.items);
        self.range(self.start_index..self.end_index)
    }

    /// A queue with the given items, the first one numbered `start_index`.
    pub fn from_elements(start_index: isize, elements: Vec<T>) -> (deque: Self)
        requires
            start_index + elements@.len() <= isize::MAX,
        ensures
            deque.wf(),
            deque@ == (IndexedSeq { start: start_index as int, items: elements@ }),
            deque.spare_chunks() == 0,
            forall|i: int| deque@.end() <= i ==> #[trigger] deque.found(i) is None,
    {
        let mut chunks: VecDeque<Arc<Vec<Option<T>>>> = VecDeque::new();
        let mut slots: Vec<Option<T>> = Vec::new();
        let first_slot: usize = slot_of(start_index);
        let ghost items = elements@;
        if elements.len() == 0 {
            let deque = ChunkedDeque::starting_at(start_index);
            assert(deque@.items =~= items);
            return deque;
        }
        while slots.len() < first_slot
            invariant
                slots.len() <= first_slot,
            decreases first_slot - slots.len(),
        {
            slots.push(None);
        }
        let mut end_index: isize = start_index;
        for element in iter: elements
            invariant
                iter.seq() == items,
                start_index + items.len() <= isize::MAX,
                end_index == start_index + iter.index(),
                first_slot < CHUNK_SIZE,
                slots@.len() < CHUNK_SIZE,
                chunks@.len() * CHUNK_SIZE + slots@.len() == first_slot + iter.index(),
                forall|c: int|
                    0 <= c < chunks@.len() ==> #[trigger] chunks@[c]@.len() == CHUNK_SIZE,
                forall|i: int|
                    0 <= i < iter.index() ==> placed(
                        chunks@,
                        slots@,
                        first_slot + i,
                        #[trigger] items[i],
                    ),
        {
            let ghost n = iter.index();
            let ghost slots_before = slots@;
            let ghost chunks_before = chunks@;
            slots.push(Some(element));
            end_index = end_index + 1;
            if slots.len() == CHUNK_SIZE {
                let mut full: Vec<Option<T>> = Vec::new();
                std::mem::swap(&mut full, &mut slots);
                chunks.push_back(Arc::new(full));
            }
            assert forall|i: int| 0 <= i < n + 1 implies placed(
                chunks@,
                slots@,
                first_slot + i,
                #[trigger] items[i],
            ) by {
                if i < n {
                    assert(placed(chunks_before, slots_before, first_slot + i, items[i]));
                }
            }
        }
        let ghost slots_before = slots@;
        let ghost chunks_before = chunks@;
        if slots.len() > 0 {
            while slots.len() < CHUNK_SIZE
                invariant
                    slots_before.len() <= slots@.len() <= CHUNK_SIZE,
                    slots@.take(slots_before.len() as int) == slots_before,
                    forall|i: int|
                        slots_before.len() <= i < slots@.len() ==> #[trigger] slots@[i] is None,
                decreases CHUNK_SIZE - slots.len(),
            {
                slots.push(None);
                assert(slots@.take(slots_before.len() as int) =~= slots_before);
            }
            chunks.push_back(Arc::new(slots));
        }
        let deque = ChunkedDeque { chunks, start_index, end_index };
        proof {
            assert forall|i: int| 0 <= i < items.len() implies #[trigger] deque.found(start_index + i)
                == Some(items[i]) by {
                assert(placed(chunks_before, slots_before, first_slot + i, items[i]));
                let place = first_slot + i;
                if place / CHUNK_SIZE as int >= chunks_before.len() {
                    let slot = place - chunks_before.len() * CHUNK_SIZE;
                    assert(slots@.take(slots_before.len() as int)[slot] == slots_before[slot]);
                }
            }
            assert forall|i: int| deque.start_index <= i < deque.end_index implies (
            #[trigger] deque.found(i)) is Some by {
                assert(deque.found(start_index + (i - start_index)) is Some);
            }
            assert(deque@.items =~= items);
            assert forall|i: int| end_index <= i implies #[trigger] deque.found(i) is None by {
                if chunks_from(start_index as int, i) < deque.chunks@.len() {
                    assert(i % CHUNK_SIZE as int >= slots_before.len());
                }
            }
        }
        deque
    }

    /// Whether all of the following hold:
    /// * `self` overlaps `other`
    /// * `other` does not hold any item newer than those of `self`
    /// * `self` does not hold any item older than those of `other`
    /// * the items in the overlap are equal
    ///
    /// Items in a chunk that the two share are equal without being compared.
    /// Others are compared, so where the two overlap every item has to be found.
    pub fn is_continuation_of(&self, other: &Self) -> (result: bool)
        where
            T: PartialEq,
        requires
            self.valid(),
            other.valid(),
            extends(self@, other@) ==> forall|i: int|
                #![trigger self.found(i)]
                #![trigger other.found(i)]
                self@.start <= i < other@.end() ==> self.found(i) is Some && other.found(i) is Some,
        ensures
            result ==> extends(self@, other@),
            result ==> forall|i: int|
                self@.start <= i < other@.end() ==> may_be_equal(
                    #[trigger] self@.at(i),
                    other@.at(i),
                ),
            !result && extends(self@, other@) ==> exists|i: int|
                self@.start <= i < other@.end() && may_differ(#[trigger] self@.at(i), other@.at(i)),
            T::obeys_eq_spec() && result ==> forall|i: int|
                self@.start <= i < other@.end() ==> (#[trigger] self@.at(i)).eq_spec(&other@.at(i))
                    || self@.at(i) == other@.at(i),
            T::obeys_eq_spec() && continues(self@, other@) ==> result,
            T::obeys_eq_spec() && eq_is_reflexive::<T>() ==> result == continues(self@, other@),
    {
        if self.start_index < other.start_index || self.end_index < other.end_index {
            return false;
        }
        let start: isize = self.start_index;
        let end: isize = other.end_index;
        if start >= end {
            return false;
        }
        let (first_self_chunk, first_offset) = self.index_to_chunk_and_offset(start);
        let (first_other_chunk, _offset) = other.index_to_chunk_and_offset(start);
        let mut self_chunk_idx: usize = first_self_chunk;
        let mut other_chunk_idx: usize = first_other_chunk;
        let mut offset: usize = first_offset;
        let mut cur: isize = start;
        while cur < end
            invariant
                self.valid(),
                other.valid(),
                forall|i: int|
                    #![trigger self.found(i)]
                    #![trigger other.found(i)]
                    start <= i < end ==> self.found(i) is Some && other.found(i) is Some,
                extends(self@, other@),
                start == self.start_index,
                end == other.end_index,
                start <= cur <= end,
                offset < CHUNK_SIZE,
                cur < end ==> {
                    &&& offset == cur as int % CHUNK_SIZE as int
                    &&& self_chunk_idx == cur as int / CHUNK_SIZE as int - self.start_index as int
                        / CHUNK_SIZE as int
                    &&& other_chunk_idx == cur as int / CHUNK_SIZE as int - other.start_index as int
                        / CHUNK_SIZE as int
                },
                forall|i: int|
                    start <= i < cur ==> may_be_equal(#[trigger] self@.at(i), other@.at(i)),
                T::obeys_eq_spec() ==> forall|i: int|
                    start <= i < cur ==> (#[trigger] self@.at(i)).eq_spec(&other@.at(i))
                        || self@.at(i) == other@.at(i),
            decreases end - cur,
        {
            let self_chunk = &self.chunks[self_chunk_idx];
            let other_chunk = &other.chunks[other_chunk_idx];
            let ghost block = cur as int / CHUNK_SIZE as int;
            if ptr_eq(self_chunk, other_chunk) {
                // The whole chunk is the same: go on with the next one.
                let left_in_chunk: isize = (CHUNK_SIZE - offset) as isize;
                let next: isize = match cur.checked_add(left_in_chunk) {
                    Some(boundary) => if boundary < end {
                        boundary
                    } else {
                        end
                    },
                    None => end,
                };
                proof {
                    assert forall|i: int| cur <= i < next implies (#[trigger] self@.at(i))
                        == other@.at(i) by {
                        assert(i / CHUNK_SIZE as int == block);
                        assert(self.found(i) is Some);
                        assert(other.found(i) is Some);
                        assert(self.found(i) == other.found(i));
                    }
                }
                cur = next;
            } else {
                while cur < end && offset < CHUNK_SIZE
                    invariant
                        self.valid(),
                        other.valid(),
                        forall|i: int|
                            #![trigger self.found(i)]
                            #![trigger other.found(i)]
                            start <= i < end ==> self.found(i) is Some && other.found(i) is Some,
                        extends(self@, other@),
                        start == self.start_index,
                        end == other.end_index,
                        start <= cur <= end,
                        offset <= CHUNK_SIZE,
                        cur == block * CHUNK_SIZE + offset,
                        self_chunk_idx == block - self.start_index as int / CHUNK_SIZE as int,
                        other_chunk_idx == block - other.start_index as int / CHUNK_SIZE as int,
                        self_chunk_idx < self.chunks@.len(),
                        other_chunk_idx < other.chunks@.len(),
                        *self_chunk == self.chunks@[self_chunk_idx as int],
                        *other_chunk == other.chunks@[other_chunk_idx as int],
                        forall|i: int|
                            start <= i < cur ==> may_be_equal(
                                #[trigger] self@.at(i),
                                other@.at(i),
                            ),
                        T::obeys_eq_spec() ==> forall|i: int|
                            start <= i < cur ==> (#[trigger] self@.at(i)).eq_spec(&other@.at(i))
                                || self@.at(i) == other@.at(i),
                    decreases end - cur,
                {
                    assert(self.found(cur as int) is Some);
                    assert(other.found(cur as int) is Some);
                    let self_val = self_chunk[offset].as_ref().unwrap();
                    let other_val = other_chunk[offset].as_ref().unwrap();
                    assert(*self_val == self@.at(cur as int));
                    assert(*other_val == other@.at(cur as int));
                    if !self_val.eq(other_val) {
                        assert(may_differ(self@.at(cur as int), other@.at(cur as int)));
                        return false;
                    }
                    offset = offset + 1;
                    cur = cur + 1;
                }
            }
            if cur < end {
                self_chunk_idx = self_chunk_idx + 1;
                other_chunk_idx = other_chunk_idx + 1;
            }
            offset = 0;
        }
        true
    }
}

impl<T> Default for ChunkedDeque<T> {
    fn default() -> (deque: Self)
        ensures
            deque.wf(),
            deque@ == IndexedSeq::<T>::empty(0),
            deque.chunks_held() == 0,
            forall|i: int| #[trigger] deque.found(i) is None,
    {
        ChunkedDeque::new()
    }
}

impl<T> Index<isize> for ChunkedDeque<T> {
    type Output = T;

    /// The item numbered `index`, which must be in the queue.
    fn index(&self, index: isize) -> (item: &T)
        ensures
            *item == self@.at(index as int),
    {
        self.get(index).unwrap()
    }
}

impl<T> vstd::std_specs::core::IndexSpecImpl<isize> for ChunkedDeque<T> {
    open spec fn index_req(&self, index: &isize) -> bool {
        self.valid() && self@.has(*index as int) && self.found(*index as int) is Some
    }
}

impl<T: Clone> Clone for ChunkedDeque<T> {
    /// A queue that shares the chunks of this one.
    fn clone(&self) -> (deque: Self)
        ensures
            deque@ == self@,
            deque.chunks_held() == self.chunks_held(),
            forall|i: int| #[trigger] deque.found(i) == self.found(i),
            self.valid() ==> deque.valid(),
            self.wf() ==> deque.wf(),
    {
        let mut chunks = VecDeque::new();
        for i in 0..self.chunks.len()
            invariant
                chunks@ == self.chunks@.take(i as int),
        {
            chunks.push_back(self.chunks[i].clone());
        }
        let deque = ChunkedDeque {
            chunks,
            start_index: self.start_index,
            end_index: self.end_index,
        };
        proof {
            assert(deque.chunks@ =~= self.chunks@);
            assert(forall|i: int| #[trigger] deque.found(i) == self.found(i));
            assert(deque@.items =~= self@.items);
        }
        deque
    }
}

} // verus!
