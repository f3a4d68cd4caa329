//! Double-ended iterators over a `Vector`.
//!
//! Every variant keeps an independent front cursor and back cursor into
//! one logical sequence; taking from the front yields the element there
//! and advances it, taking from the back retreats the back cursor first,
//! and the iterator is exhausted once the cursors meet.  The owning
//! variant takes the elements themselves; the borrowing variant hands out
//! references into the live vector.

use vstd::prelude::*;

use crate::vector::Vector;

verus! {

/// An iterator that owns the elements it yields.  Whatever has not been
/// taken when the iterator is discarded is dropped with it, exactly once.
pub struct VectorIterator<T> {
    remaining: Vec<T>,
}

impl<T> View for VectorIterator<T> {
    type V = Seq<T>;

    closed spec fn view(&self) -> Seq<T> {
        self.remaining@
    }
}

impl<T> VectorIterator<T> {
    /// Takes the next element from the front, or nothing when the cursors
    /// have met.
    pub fn next(&mut self) -> (r: Option<T>)
        ensures
            old(self)@.len() == 0 ==> r is None && final(self)@ == old(self)@,
            old(self)@.len() > 0 ==> r == Some(old(self)@.first()) && final(self)@ == old(
                self,
            )@.drop_first(),
    {
        if self.remaining.len() == 0 {
            return None;
        }
        Some(self.remaining.remove(0))
    }

    /// Takes the next element from the back, or nothing when the cursors
    /// have met.
    pub fn next_back(&mut self) -> (r: Option<T>)
        ensures
            old(self)@.len() == 0 ==> r is None && final(self)@ == old(self)@,
            old(self)@.len() > 0 ==> r == Some(old(self)@.last()) && final(self)@ == old(
                self,
            )@.drop_last(),
    {
        self.remaining.pop()
    }
}

/// An iterator over borrowed elements of a live vector.  It never
/// allocates or frees; lookups go through the vector's bounds-checked
/// accessor.
pub struct BorrowedVectorIterator<'a, T> {
    vector: &'a Vector<T>,
    front: usize,
    back: usize,
}

impl<'a, T> BorrowedVectorIterator<'a, T> {
    #[verifier::type_invariant]
    spec fn inv(self) -> bool {
        self.front <= self.back <= self.vector@.len()
    }

    /// The elements not yet yielded, in order.
    pub closed spec fn remaining(&self) -> Seq<T> {
        self.vector@.subrange(self.front as int, self.back as int)
    }

    /// Takes a reference to the next element from the front, or nothing
    /// when the cursors have met.
    pub fn next(&mut self) -> (r: Option<&'a T>)
        ensures
            old(self).remaining().len() == 0 ==> r is None && final(self).remaining() == old(
                self,
            ).remaining(),
            old(self).remaining().len() > 0 ==> (match r {
                Some(v) => *v == old(self).remaining().first() && final(self).remaining() == old(
                    self,
                ).remaining().drop_first(),
                None => false,
            }),
    {
        proof {
            use_type_invariant(&*self);
        }
        if self.front == self.back {
            return None;
        }
        let r = self.vector.get(self.front);
        self.front = self.front + 1;
        proof {
            assert(self.remaining() =~= old(self).remaining().drop_first());
        }
        r
    }

    /// Takes a reference to the next element from the back, or nothing
    /// when the cursors have met.
    pub fn next_back(&mut self) -> (r: Option<&'a T>)
        ensures
            old(self).remaining().len() == 0 ==> r is None && final(self).remaining() == old(
                self,
            ).remaining(),
            old(self).remaining().len() > 0 ==> (match r {
                Some(v) => *v == old(self).remaining().last() && final(self).remaining() == old(
                    self,
                ).remaining().drop_last(),
                None => false,
            }),
    {
        proof {
            use_type_invariant(&*self);
        }
        if self.front == self.back {
            return None;
        }
        self.back = self.back - 1;
        let r = self.vector.get(self.back);
        proof {
            assert(self.remaining() =~= old(self).remaining().drop_last());
        }
        r
    }
}

impl<T> Vector<T> {
    /// Turns the vector into an iterator that owns its elements.  The
    /// vector's backing buffer moves into the iterator, so nothing is
    /// freed twice and elements never taken are still dropped with it.
    pub fn into_iter(self) -> (it: VectorIterator<T>)
        ensures
            it@ == self@,
    {
        let Vector { data, capacity: _ } = self;
        VectorIterator { remaining: data }
    }

    /// Returns an iterator over borrowed elements of the vector.
    pub fn iter(&self) -> (it: BorrowedVectorIterator<'_, T>)
        ensures
            it.remaining() == self@,
    {
        let it = BorrowedVectorIterator { vector: self, front: 0, back: self.len() };
        proof {
            assert(it.remaining() =~= self@);
        }
        it
    }
}

} // verus!
