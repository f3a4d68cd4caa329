//! A single-value heap box with exclusive ownership.

use vstd::prelude::*;

verus! {

/// A heap allocation holding exactly one `T`, owned exclusively by this
/// handle and freed with it.
pub struct OwnedPointer<T> {
    pub(crate) val: Box<T>,
}

impl<T> View for OwnedPointer<T> {
    type V = T;

    closed spec fn view(&self) -> T {
        *self.val
    }
}

impl<T> OwnedPointer<T> {
    /// Allocates a new holder containing the passed element.
    pub fn new(elem: T) -> (p: OwnedPointer<T>)
        ensures
            p@ == elem,
    {
        OwnedPointer { val: Box::new(elem) }
    }

    /// Borrows the held value.
    pub fn as_ref(&self) -> (r: &T)
        ensures
            *r == self@,
    {
        &*self.val
    }

    /// Borrows the held value mutably.
    pub fn as_mut(&mut self) -> (r: &mut T)
        ensures
            *r == old(self)@,
            final(self)@ == *final(r),
    {
        &mut *self.val
    }

    /// The view is the boxed value itself.
    pub(crate) proof fn lemma_view(&self)
        ensures
            self@ == *self.val,
    {
    }

    /// Takes the held value out, freeing the allocation.
    pub fn into_inner(self) -> (r: T)
        ensures
            r == self@,
    {
        *self.val
    }
}

} // verus!
