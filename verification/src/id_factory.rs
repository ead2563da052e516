use vstd::prelude::*;

verus! {

/// Hands out identifiers, each one larger than all those before it.
pub struct IdFactory {
    next: usize,
}

impl IdFactory {
    /// The identifier that the next call of `create` hands out.
    pub closed spec fn next_id(&self) -> nat {
        self.next as nat
    }

    /// Hands out the next identifier.
    pub fn create(&mut self) -> (id: usize)
        requires
            old(self).next_id() < usize::MAX,
        ensures
            id == old(self).next_id(),
            final(self).next_id() == old(self).next_id() + 1,
    {
        let id: usize = self.next;
        self.next = self.next + 1;
        id
    }
}

impl Default for IdFactory {
    /// A factory whose first identifier is zero.
    fn default() -> (factory: Self)
        ensures
            factory.next_id() == 0,
    {
        IdFactory { next: 0 }
    }
}

} // verus!
