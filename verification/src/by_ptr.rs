use std::ops::Deref;
use std::sync::Arc;

use vstd::prelude::*;

use crate::shared::ptr_eq;

verus! {

/// A shared value that is told apart from others by where it is, not by what it is.
pub struct ByPtr<T> {
    shared: Arc<T>,
}

impl<T> View for ByPtr<T> {
    type V = T;

    /// The value that is shared.
    closed spec fn view(&self) -> T {
        *self.shared
    }
}

impl<T> Deref for ByPtr<T> {
    type Target = T;

    /// The value that is shared.
    fn deref(&self) -> (value: &T)
        ensures
            *value == self@,
    {
        &self.shared
    }
}

impl<T> From<T> for ByPtr<T> {
    fn from(value: T) -> (by_ptr: Self)
        ensures
            by_ptr@ == value,
    {
        ByPtr { shared: Arc::new(value) }
    }
}

impl<T> vstd::std_specs::convert::FromSpecImpl<T> for ByPtr<T> {
    open spec fn obeys_from_spec() -> bool {
        true
    }

    closed spec fn from_spec(value: T) -> Self {
        ByPtr { shared: Arc::new(value) }
    }
}

impl<T> From<Arc<T>> for ByPtr<T> {
    fn from(arc: Arc<T>) -> (by_ptr: Self)
        ensures
            by_ptr@ == *arc,
    {
        ByPtr { shared: arc }
    }
}

impl<T> vstd::std_specs::convert::FromSpecImpl<Arc<T>> for ByPtr<T> {
    open spec fn obeys_from_spec() -> bool {
        true
    }

    closed spec fn from_spec(arc: Arc<T>) -> Self {
        ByPtr { shared: arc }
    }
}

impl<T> Clone for ByPtr<T> {
    /// Another handle to the same value.
    fn clone(&self) -> (by_ptr: Self)
        ensures
            by_ptr == *self,
    {
        ByPtr { shared: self.shared.clone() }
    }
}

impl<T> ByPtr<T> {
    /// Whether comparing where the two values are can give `same`.
    pub closed spec fn compares(&self, other: &Self, same: bool) -> bool {
        call_ensures(ptr_eq::<T>, (&self.shared, &other.shared), same)
    }
}

impl<T> PartialEq for ByPtr<T> {
    /// Whether the two are handles to the same value. Two handles to values that are
    /// equal but apart from each other are different.
    fn eq(&self, other: &Self) -> (same: bool)
        ensures
            self.compares(other, same),
            same ==> self@ == other@,
    {
        ptr_eq(&self.shared, &other.shared)
    }
}

impl<T> vstd::std_specs::cmp::PartialEqSpecImpl for ByPtr<T> {
    open spec fn obeys_eq_spec() -> bool {
        false
    }

    open spec fn eq_spec(&self, other: &Self) -> bool {
        self@ == other@
    }
}

impl<T> Eq for ByPtr<T> {

}

} // verus!
