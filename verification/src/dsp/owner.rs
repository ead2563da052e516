use vstd::prelude::*;

use crate::dsp::rechunk::all_cloned;

verus! {

/// A buffer of one's own for data that is only lent.
pub struct Owner<T> {
    buffer: Vec<T>,
}

impl<T> Owner<T> {
    /// What is in the buffer.
    pub closed spec fn contents(&self) -> Seq<T> {
        self.buffer@
    }

    pub fn new() -> (owner: Self)
        ensures
            owner.contents() == Seq::<T>::empty(),
    {
        Owner { buffer: Vec::new() }
    }

    /// Clones `data` into the buffer and returns the buffer, to be worked on in place.
    pub fn process(&mut self, data: &[T]) -> (own: &mut [T])
        where
            T: Clone,
        ensures
            all_cloned(data@, own@),
            final(self).contents() == final(own)@,
    {
        self.buffer.clear();
        self.buffer.extend_from_slice(data);
        self.buffer.as_mut_slice()
    }
}

} // verus!
