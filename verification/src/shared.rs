use std::sync::Arc;

use vstd::prelude::*;

verus! {

/// [`Arc::make_mut`]: a mutable reference to what `shared` points to, after making
/// `shared` the only owner of it. The value referred to is the one that was pointed
/// to, or a clone of it where it had other owners.
#[verifier::external_body]
pub(crate) fn make_mut<V: Clone>(shared: &mut Arc<V>) -> (value: &mut V)
    ensures
        cloned::<V>(**old(shared), *value),
        **final(shared) == *final(value),
{
    Arc::make_mut(shared)
}

/// [`Arc::ptr_eq`]: whether the two point to the same allocation, and so to the same
/// value. Nothing is said of two allocations that hold equal values.
#[verifier::external_body]
pub(crate) fn ptr_eq<V>(a: &Arc<V>, b: &Arc<V>) -> (same: bool)
    ensures
        same ==> **a == **b,
{
    Arc::ptr_eq(a, b)
}

} // verus!
