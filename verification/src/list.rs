//! A doubly linked list with constant-time operations at both ends.
//!
//! The nodes live in a slab of slots addressed by index (see the arena
//! module), so splicing is a fixed number of link updates and no raw
//! pointers are needed.  Elements are read through shared references;
//! changing one goes through `remove` and `insert`, since a mutable
//! reference into the linked structure could not be checked against the
//! structural invariant that ties every node to its neighbours.

use vstd::prelude::*;

pub(crate) mod arena;
pub mod iterator;
pub mod list_node;

use arena::ListArena;

verus! {

use vstd::std_specs::cmp::PartialEqSpec;

use crate::render::{BRACKET_CLOSE, BRACKET_OPEN, COMMA, SPACE};
use crate::render::{lemma_rendered_tail_push, push_decimal, spec_decimal, spec_rendered, spec_rendered_tail};

/// A doubly linked list of `T`.
pub struct List<T> {
    arena: ListArena<T>,
}

impl<T> View for List<T> {
    type V = Seq<T>;

    closed spec fn view(&self) -> Seq<T> {
        self.arena.view()
    }
}

impl<T> List<T> {
    #[verifier::type_invariant]
    spec fn inv(self) -> bool {
        self.arena.wf()
    }

    /// Creates a new list with no allocations.
    pub fn new() -> (l: Self)
        ensures
            l@ == Seq::<T>::empty(),
    {
        List { arena: ListArena::new() }
    }

    /// Returns the length of the list.  The length is stored, not
    /// counted.
    pub fn len(&self) -> (n: usize)
        ensures
            n == self@.len(),
    {
        proof {
            use_type_invariant(self);
        }
        self.arena.len
    }

    /// Checks if the list is empty.
    pub fn is_empty(&self) -> (b: bool)
        ensures
            b == (self@.len() == 0),
    {
        self.len() == 0
    }

    /// Gets a reference to the value at that position in the list from
    /// the front, walking forward links.
    ///
    /// Returns `None` if the index is out of bounds.
    pub fn get_front(&self, index: usize) -> (r: Option<&T>)
        ensures
            match r {
                Some(v) => index < self@.len() && *v == self@[index as int],
                None => index >= self@.len(),
            },
    {
        proof {
            use_type_invariant(self);
        }
        if index >= self.arena.len {
            return None;
        }
        let s = self.arena.slot_at_front(index);
        proof {
            assert(self.arena.slot_ok(index as int));
        }
        Some(&self.arena.nodes[s].as_ref().unwrap().val)
    }

    /// Gets a reference to the value at that position in the list from
    /// the back, walking backward links: index 0 names the last element.
    ///
    /// Returns `None` if the index is out of bounds.
    pub fn get_back(&self, index: usize) -> (r: Option<&T>)
        ensures
            match r {
                Some(v) => index < self@.len() && *v == self@[self@.len() - 1 - index],
                None => index >= self@.len(),
            },
    {
        proof {
            use_type_invariant(self);
        }
        if index >= self.arena.len {
            return None;
        }
        let s = self.arena.slot_at_back(index);
        proof {
            assert(self.arena.slot_ok(self@.len() - 1 - index));
        }
        Some(&self.arena.nodes[s].as_ref().unwrap().val)
    }

    /// Gets a reference to the value at that position from either the
    /// front or the back, picking whichever end is closer to halve the
    /// worst-case traversal.
    ///
    /// Returns `None` if the index is out of bounds.
    pub fn get(&self, index: usize) -> (r: Option<&T>)
        ensures
            match r {
                Some(v) => index < self@.len() && *v == self@[index as int],
                None => index >= self@.len(),
            },
    {
        proof {
            use_type_invariant(self);
        }
        if index >= self.arena.len {
            return None;
        }
        if index <= self.arena.len / 2 {
            self.get_front(index)
        } else {
            self.get_back(self.len() - 1 - index)
        }
    }

    /// Splices `elem` in as the element at position `index`; everything
    /// at and after that position moves one step towards the back.  An
    /// index beyond the length is out of bounds and is ruled out; at the
    /// length itself the call is equivalent to `push_back`.  The nearer
    /// end is used to reach the position.
    pub fn insert(&mut self, index: usize, elem: T)
        requires
            index <= old(self)@.len(),
            old(self)@.len() < usize::MAX,
        ensures
            final(self)@ == old(self)@.insert(index as int, elem),
    {
        proof {
            use_type_invariant(&*self);
        }
        let mut inner = ListArena::new();
        core::mem::swap(&mut self.arena, &mut inner);
        inner.insert_at(index, elem);
        core::mem::swap(&mut self.arena, &mut inner);
    }

    /// Splices `elem` in at position `index` counted from the front;
    /// the same operation as `insert` without the choice of end.
    pub fn insert_front(&mut self, index: usize, elem: T)
        requires
            index <= old(self)@.len(),
            old(self)@.len() < usize::MAX,
        ensures
            final(self)@ == old(self)@.insert(index as int, elem),
    {
        self.insert(index, elem);
    }

    /// Splices `elem` in at an index counted from the back: `0` appends
    /// at the back, the length prepends at the front, and an interior
    /// index `i` puts the element at position `len - 1 - i`.
    pub fn insert_back(&mut self, index: usize, elem: T)
        requires
            index <= old(self)@.len(),
            old(self)@.len() < usize::MAX,
        ensures
            final(self)@ == old(self)@.insert(
                if index == old(self)@.len() {
                    0int
                } else if index == 0 {
                    old(self)@.len() as int
                } else {
                    old(self)@.len() - 1 - index
                },
                elem,
            ),
    {
        let n = self.len();
        if index == n {
            self.insert(0, elem);
        } else if index == 0 {
            self.insert(n, elem);
        } else {
            self.insert(n - 1 - index, elem);
        }
    }

    /// Pushes an element to the back of the list.
    pub fn push_back(&mut self, elem: T)
        requires
            old(self)@.len() < usize::MAX,
        ensures
            final(self)@ == old(self)@.push(elem),
    {
        let n = self.len();
        self.insert(n, elem);
        proof {
            assert(self@ =~= old(self)@.push(elem));
        }
    }

    /// Pushes an element to the front of the list.
    pub fn push_front(&mut self, elem: T)
        requires
            old(self)@.len() < usize::MAX,
        ensures
            final(self)@ == old(self)@.insert(0, elem),
    {
        self.insert(0, elem);
    }

    /// Removes and returns the first element in the list, which must not
    /// be empty.
    pub fn pop_front(&mut self) -> (r: T)
        requires
            old(self)@.len() > 0,
        ensures
            r == old(self)@.first(),
            final(self)@ == old(self)@.drop_first(),
    {
        let r = self.remove(0);
        proof {
            assert(self@ =~= old(self)@.drop_first());
        }
        r
    }

    /// Removes and returns the last element in the list, which must not
    /// be empty.
    pub fn pop_back(&mut self) -> (r: T)
        requires
            old(self)@.len() > 0,
        ensures
            r == old(self)@.last(),
            final(self)@ == old(self)@.drop_last(),
    {
        let n = self.len();
        let r = self.remove(n - 1);
        proof {
            assert(self@ =~= old(self)@.drop_last());
        }
        r
    }

    /// Removes and returns the element at `index`; everything after it
    /// moves one step towards the front.  An index at or beyond the
    /// length is out of bounds and is ruled out.  The nearer end is used
    /// to reach the position.
    pub fn remove(&mut self, index: usize) -> (r: T)
        requires
            index < old(self)@.len(),
        ensures
            r == old(self)@[index as int],
            final(self)@ == old(self)@.remove(index as int),
    {
        proof {
            use_type_invariant(&*self);
        }
        let mut inner = ListArena::new();
        core::mem::swap(&mut self.arena, &mut inner);
        let r = inner.remove_at(index);
        core::mem::swap(&mut self.arena, &mut inner);
        r
    }

    /// Removes and returns the element at `index` counted from the
    /// front; the same operation as `remove` without the choice of end.
    pub fn remove_front(&mut self, index: usize) -> (r: T)
        requires
            index < old(self)@.len(),
        ensures
            r == old(self)@[index as int],
            final(self)@ == old(self)@.remove(index as int),
    {
        self.remove(index)
    }

    /// Removes and returns the element at `index` counted from the back:
    /// `0` names the last element.
    pub fn remove_back(&mut self, index: usize) -> (r: T)
        requires
            index < old(self)@.len(),
        ensures
            r == old(self)@[old(self)@.len() - 1 - index],
            final(self)@ == old(self)@.remove(old(self)@.len() - 1 - index),
    {
        let n = self.len();
        self.remove(n - 1 - index)
    }

    /// Cuts the list off at `index` and returns the rest as a new list:
    /// afterwards this list holds the elements before `index` and the
    /// returned list holds the elements from `index` on.  The index must
    /// be below the length; at zero the whole list moves to the returned
    /// list.
    pub fn split_off(&mut self, index: usize) -> (r: Self)
        requires
            index < old(self)@.len(),
        ensures
            final(self)@ == old(self)@.subrange(0, index as int),
            r@ == old(self)@.subrange(index as int, old(self)@.len() as int),
    {
        proof {
            use_type_invariant(&*self);
        }
        if index == 0 {
            let mut r = List::new();
            core::mem::swap(self, &mut r);
            proof {
                assert(self@ =~= old(self)@.subrange(0, 0int));
                assert(r@ =~= old(self)@.subrange(0, old(self)@.len() as int));
            }
            return r;
        }
        let ghost orig = self@;
        let mut tail = List::new();
        proof {
            assert(self@ =~= orig.subrange(0, self@.len() as int));
            assert(tail@ =~= orig.subrange(orig.len() as int, orig.len() as int));
        }
        while self.len() > index
            invariant
                1 <= index < orig.len(),
                orig.len() <= usize::MAX,
                index as int <= self@.len(),
                self@.len() <= orig.len(),
                self@ == orig.subrange(0, self@.len() as int),
                tail@ == orig.subrange(self@.len() as int, orig.len() as int),
            decreases self@.len(),
        {
            let ghost snap_self = self@;
            let v = self.pop_back();
            tail.push_front(v);
            proof {
                assert(self@ =~= snap_self.subrange(0, snap_self.len() - 1));
                assert(self@ =~= orig.subrange(0, self@.len() as int));
                assert(tail@ =~= orig.subrange(self@.len() as int, orig.len() as int));
            }
        }
        tail
    }

    /// Appends the other list at the end of this one and leaves the
    /// other list empty.
    pub fn append(&mut self, other: &mut Self)
        requires
            old(self)@.len() + old(other)@.len() <= usize::MAX,
        ensures
            final(self)@ == old(self)@ + old(other)@,
            final(other)@ == Seq::<T>::empty(),
    {
        if self.is_empty() {
            core::mem::swap(self, other);
            proof {
                assert(self@ =~= old(self)@ + old(other)@);
                assert(other@ =~= Seq::<T>::empty());
            }
            return ;
        }
        if other.is_empty() {
            proof {
                assert(self@ =~= old(self)@ + old(other)@);
                assert(other@ =~= Seq::<T>::empty());
            }
            return ;
        }
        let ghost sorig = self@;
        let ghost oorig = other@;
        proof {
            assert(self@ =~= sorig + oorig.subrange(0, 0int));
            assert(other@ =~= oorig.subrange(0, oorig.len() as int));
        }
        while other.len() > 0
            invariant
                sorig.len() + oorig.len() <= usize::MAX,
                other@.len() <= oorig.len(),
                self@ == sorig + oorig.subrange(0, oorig.len() - other@.len()),
                other@ == oorig.subrange(oorig.len() - other@.len(), oorig.len() as int),
            decreases other@.len(),
        {
            let v = other.pop_front();
            self.push_back(v);
            proof {
                assert(self@ =~= sorig + oorig.subrange(0, oorig.len() - other@.len()));
                assert(other@ =~= oorig.subrange(oorig.len() - other@.len(), oorig.len() as int));
            }
        }
        proof {
            assert(self@ =~= old(self)@ + old(other)@);
            assert(other@ =~= Seq::<T>::empty());
        }
    }

    /// Appends the other list at the start of this one and leaves the
    /// other list empty.
    pub fn prepend(&mut self, other: &mut Self)
        requires
            old(self)@.len() + old(other)@.len() <= usize::MAX,
        ensures
            final(self)@ == old(other)@ + old(self)@,
            final(other)@ == Seq::<T>::empty(),
    {
        core::mem::swap(self, other);
        self.append(other);
    }

    /// Builds a list holding the elements of `v`, in the same order.
    pub fn from_vec(v: Vec<T>) -> (l: Self)
        ensures
            l@ == v@,
    {
        let ghost orig = v@;
        let mut rest = v;
        let n = rest.len();
        let mut l = List::new();
        proof {
            assert(n == orig.len());
            assert(rest@ =~= orig.subrange(0, rest@.len() as int));
            assert(l@ =~= orig.subrange(rest@.len() as int, orig.len() as int));
        }
        while rest.len() > 0
            invariant
                orig.len() <= usize::MAX,
                rest@.len() <= orig.len(),
                rest@ == orig.subrange(0, rest@.len() as int),
                l@ == orig.subrange(rest@.len() as int, orig.len() as int),
            decreases rest@.len(),
        {
            let x = rest.pop().unwrap();
            l.push_front(x);
            proof {
                assert(rest@ =~= orig.subrange(0, rest@.len() as int));
                assert(l@ =~= orig.subrange(rest@.len() as int, orig.len() as int));
            }
        }
        proof {
            assert(l@ =~= v@);
        }
        l
    }
}


/// Compares two lists elementwise with one pass over each;
/// short-circuits when the lengths differ.
impl<T: PartialEq> PartialEq for List<T> {
    fn eq(&self, other: &Self) -> (r: bool) {
        let n = self.len();
        if n != other.len() {
            return false;
        }
        let mut it1 = self.iter();
        let mut it2 = other.iter();
        let mut i: usize = 0;
        while i < n
            invariant
                n == self@.len(),
                n == other@.len(),
                i <= n,
                it1.remaining() == self@.subrange(i as int, n as int),
                it2.remaining() == other@.subrange(i as int, n as int),
                T::obeys_eq_spec() ==> forall|j: int|
                    0 <= j < i ==> #[trigger] self@[j].eq_spec(&other@[j]),
            decreases n - i,
        {
            let a = it1.next().unwrap();
            let b = it2.next().unwrap();
            if !(a == b) {
                return false;
            }
            proof {
                assert(it1.remaining() =~= self@.subrange(i + 1, n as int));
                assert(it2.remaining() =~= other@.subrange(i + 1, n as int));
            }
            i = i + 1;
        }
        true
    }
}

impl<T: PartialEq> vstd::std_specs::cmp::PartialEqSpecImpl for List<T> {
    open spec fn obeys_eq_spec() -> bool {
        T::obeys_eq_spec()
    }

    open spec fn eq_spec(&self, other: &Self) -> bool {
        &&& self@.len() == other@.len()
        &&& forall|i: int| #![auto] 0 <= i < self@.len() ==> self@[i].eq_spec(&other@[i])
    }
}


/// Equality ignores history: two lists holding the same sequence of
/// elements compare equal, no matter the operations that built them,
/// whenever the element equality is the logical one.
pub proof fn lemma_eq_of_same_elements<T: PartialEq>(a: List<T>, b: List<T>)
    requires
        vstd::laws_eq::obeys_concrete_eq::<T>(),
        a@ == b@,
    ensures
        a.eq_spec(&b),
{
    reveal(vstd::laws_eq::obeys_concrete_eq);
}

/// Lists of differing length never compare equal.
pub proof fn lemma_neq_of_lengths<T: PartialEq>(a: List<T>, b: List<T>)
    requires
        a@.len() != b@.len(),
    ensures
        !a.eq_spec(&b),
{
}


impl List<i32> {
    /// Renders the container as bracketed, comma-separated decimal
    /// text: the shape the standard debug formatting gives a sequence.
    pub fn debug_bytes(&self) -> (r: Vec<u8>)
        ensures
            r@ == spec_rendered(self@),
    {
        let n = self.len();
        let mut out: Vec<u8> = Vec::new();
        out.push(BRACKET_OPEN);
        if n == 0 {
            out.push(BRACKET_CLOSE);
            proof {
                assert(out@ =~= spec_rendered(self@));
            }
            return out;
        }
        let first = *self.get_front(0).unwrap();
        push_decimal(&mut out, first);
        proof {
            assert(self@.subrange(1, 1int) =~= Seq::<i32>::empty());
            assert(out@ =~= seq![BRACKET_OPEN] + spec_decimal(self@.first() as int)
                + spec_rendered_tail(self@.subrange(1, 1int)));
        }
        let mut i: usize = 1;
        while i < n
            invariant
                n == self@.len(),
                1 <= i <= n,
                out@ == seq![BRACKET_OPEN] + spec_decimal(self@.first() as int)
                    + spec_rendered_tail(self@.subrange(1, i as int)),
            decreases n - i,
        {
            let v = *self.get_front(i).unwrap();
            out.push(COMMA);
            out.push(SPACE);
            push_decimal(&mut out, v);
            proof {
                assert(self@.subrange(1, i + 1) =~= self@.subrange(1, i as int).push(
                    self@[i as int],
                ));
                lemma_rendered_tail_push(self@.subrange(1, i as int), v);
                assert(out@ =~= seq![BRACKET_OPEN] + spec_decimal(self@.first() as int)
                    + spec_rendered_tail(self@.subrange(1, i + 1)));
            }
            i = i + 1;
        }
        out.push(BRACKET_CLOSE);
        proof {
            assert(self@.subrange(1, n as int) =~= self@.drop_first());
            assert(out@ =~= spec_rendered(self@));
        }
        out
    }
}


/// The default is the empty container.
impl<T> Default for List<T> {
    fn default() -> (r: Self)
        ensures
            r@ == Seq::<T>::empty(),
    {
        Self::new()
    }
}

} // verus!
