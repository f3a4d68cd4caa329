//! A resizable contiguous array with explicit capacity accounting.
//!
//! The container tracks its logical capacity itself and grows it by a
//! factor of 1.25 (rounded up, with a minimum first allocation of two
//! slots) whenever a push or insert would exceed it.  Zero-sized element
//! types never need storage, so their capacity is reported as the largest
//! representable count from the start.  The live elements can be read as
//! a slice and edited one at a time through `get_mut`; there is no
//! whole-buffer mutable view and no way to change the logical length
//! without going through the checked operations.

use vstd::prelude::*;

pub mod iterator;

verus! {

use vstd::std_specs::cmp::PartialEqSpec;

use crate::render::{BRACKET_CLOSE, BRACKET_OPEN, COMMA, SPACE};
use crate::render::{lemma_rendered_tail_push, push_decimal, spec_decimal, spec_rendered, spec_rendered_tail};

/// True when values of `T` occupy no storage.
pub open spec fn storage_free<T>() -> bool {
    vstd::layout::size_of::<T>() == 0
}

/// The capacity that follows a full buffer of `cap` slots: `cap` grown by
/// a quarter, rounded up, clamped to the largest representable count.
pub open spec fn grown_capacity_spec(cap: nat) -> nat {
    if cap + ((cap + 3) / 4) > usize::MAX as nat {
        usize::MAX as nat
    } else {
        cap + ((cap + 3) / 4)
    }
}

/// The capacity after one element is added to a vector of `len` elements
/// and capacity `cap`: unchanged while there is room, two slots for a
/// first allocation, else grown by the fixed factor.
pub open spec fn capacity_after_push<T>(cap: nat, len: nat) -> nat {
    if storage_free::<T>() {
        usize::MAX as nat
    } else if cap == 0 {
        2
    } else if len == cap {
        grown_capacity_spec(cap)
    } else {
        cap
    }
}

/// A resizable contiguous array of `T`.  Does not allocate upon creation.
pub struct Vector<T> {
    data: Vec<T>,
    capacity: usize,
}

impl<T> View for Vector<T> {
    type V = Seq<T>;

    closed spec fn view(&self) -> Seq<T> {
        self.data@
    }
}

impl<T> Vector<T> {
    #[verifier::type_invariant]
    spec fn inv(self) -> bool {
        &&& self.data@.len() <= self.capacity
        &&& storage_free::<T>() ==> self.capacity == usize::MAX
    }

    /// The logical capacity: how many elements fit before the next growth.
    pub closed spec fn spec_capacity(self) -> nat {
        self.capacity as nat
    }

    /// Creates a new vector.  Does not allocate till it's needed.
    pub fn new() -> (v: Self)
        ensures
            v@ == Seq::<T>::empty(),
            v.spec_capacity() == (if storage_free::<T>() {
                usize::MAX as nat
            } else {
                0nat
            }),
    {
        let capacity: usize = if core::mem::size_of::<T>() == 0 {
            usize::MAX
        } else {
            0
        };
        let v = Vector { data: Vec::new(), capacity };
        proof {
            assert(v@ =~= Seq::<T>::empty());
        }
        v
    }

    /// Creates a new vector with a preallocated buffer with space for
    /// `cap` elements.
    pub fn with_capacity(cap: usize) -> (v: Self)
        ensures
            v@ == Seq::<T>::empty(),
            v.spec_capacity() == (if storage_free::<T>() {
                usize::MAX as nat
            } else {
                cap as nat
            }),
    {
        if core::mem::size_of::<T>() == 0 {
            Self::new()
        } else {
            let v = Vector { data: Vec::with_capacity(cap), capacity: cap };
            proof {
                assert(v@ =~= Seq::<T>::empty());
            }
            v
        }
    }

    /// Returns the amount of elements stored in the vector.
    pub fn len(&self) -> (n: usize)
        ensures
            n == self@.len(),
    {
        self.data.len()
    }

    /// Checks if the vector has no elements in it.  Does not check whether
    /// a buffer has been allocated.
    pub fn is_empty(&self) -> (b: bool)
        ensures
            b == (self@.len() == 0),
    {
        self.data.len() == 0
    }

    /// Grows the capacity by `additional` slots.  Storage-free element
    /// types never allocate, so the call does nothing for them.
    pub fn reserve_additional(&mut self, additional: usize)
        requires
            !storage_free::<T>() ==> old(self).spec_capacity() + additional <= usize::MAX,
            !storage_free::<T>() ==> (old(self).spec_capacity() + additional)
                * vstd::layout::size_of::<T>() <= usize::MAX,
        ensures
            final(self)@ == old(self)@,
            final(self).spec_capacity() == (if storage_free::<T>() {
                old(self).spec_capacity() as int
            } else {
                old(self).spec_capacity() + additional
            }),
    {
        proof {
            use_type_invariant(&*self);
        }
        if core::mem::size_of::<T>() == 0 {
            return ;
        }
        self.capacity = self.capacity + additional;
        let mut data: Vec<T> = Vec::new();
        core::mem::swap(&mut self.data, &mut data);
        data.reserve(additional);
        core::mem::swap(&mut self.data, &mut data);
    }

    /// Inserts an element at the back of the vector, growing the capacity
    /// by the fixed growth factor if the vector is full.
    pub fn push(&mut self, elem: T)
        requires
            old(self)@.len() < usize::MAX,
        ensures
            final(self)@ == old(self)@.push(elem),
            final(self).spec_capacity() == capacity_after_push::<T>(
                old(self).spec_capacity(),
                old(self)@.len(),
            ),
    {
        proof {
            use_type_invariant(&*self);
        }
        if core::mem::size_of::<T>() != 0 {
            if self.capacity == 0 {
                self.capacity = 2;
            } else if self.data.len() == self.capacity {
                self.capacity = grown_capacity(self.capacity);
            }
        }
        let mut data: Vec<T> = Vec::new();
        core::mem::swap(&mut self.data, &mut data);
        data.push(elem);
        core::mem::swap(&mut self.data, &mut data);
    }

    /// Gets a reference to the element at the index's position.
    ///
    /// Returns `None` if the index is not below the length of the vector.
    pub fn get(&self, idx: usize) -> (r: Option<&T>)
        ensures
            match r {
                Some(v) => idx < self@.len() && *v == self@[idx as int],
                None => idx >= self@.len(),
            },
    {
        if idx >= self.data.len() {
            return None;
        }
        Some(&self.data[idx])
    }

    /// Gets a mutable reference to the element at the index's position.
    ///
    /// Returns `None` if the index is not below the length of the vector.
    pub fn get_mut(&mut self, idx: usize) -> (r: Option<&mut T>)
        ensures
            match r {
                Some(m) => {
                    &&& idx < old(self)@.len()
                    &&& *m == old(self)@[idx as int]
                    &&& final(self)@ == old(self)@.update(idx as int, *final(m))
                },
                None => {
                    &&& idx >= old(self)@.len()
                    &&& final(self)@ == old(self)@
                },
            },
            final(self).spec_capacity() == old(self).spec_capacity(),
    {
        proof {
            use_type_invariant(&*self);
        }
        if idx >= self.data.len() {
            return None;
        }
        Some(&mut self.data[idx])
    }

    /// Inserts an element in the vector at `idx`, moving everything after
    /// it one step to the right.  Grows like `push` when the vector is
    /// full.  An index beyond the length is out of bounds and is ruled
    /// out; at `idx` equal to the length the call is equivalent to `push`.
    pub fn insert(&mut self, idx: usize, elem: T)
        requires
            idx <= old(self)@.len(),
            old(self)@.len() < usize::MAX,
        ensures
            final(self)@ == old(self)@.insert(idx as int, elem),
            final(self).spec_capacity() == capacity_after_push::<T>(
                old(self).spec_capacity(),
                old(self)@.len(),
            ),
    {
        proof {
            use_type_invariant(&*self);
        }
        if idx == self.data.len() {
            self.push(elem);
            proof {
                assert(self@ =~= old(self)@.insert(idx as int, elem));
            }
            return ;
        }
        if core::mem::size_of::<T>() != 0 {
            if self.capacity == 0 {
                self.capacity = 2;
            } else if self.data.len() == self.capacity {
                self.capacity = grown_capacity(self.capacity);
            }
        }
        let mut data: Vec<T> = Vec::new();
        core::mem::swap(&mut self.data, &mut data);
        data.insert(idx, elem);
        core::mem::swap(&mut self.data, &mut data);
    }

    /// Removes the last element in the vector.
    ///
    /// Returns `None` if the vector is empty.  The capacity is kept.
    pub fn pop(&mut self) -> (r: Option<T>)
        ensures
            old(self)@.len() == 0 ==> r is None && final(self)@ == old(self)@,
            old(self)@.len() > 0 ==> r == Some(old(self)@.last()) && final(self)@ == old(
                self,
            )@.drop_last(),
            final(self).spec_capacity() == old(self).spec_capacity(),
    {
        proof {
            use_type_invariant(&*self);
        }
        let mut data: Vec<T> = Vec::new();
        core::mem::swap(&mut self.data, &mut data);
        let r = data.pop();
        core::mem::swap(&mut self.data, &mut data);
        r
    }

    /// Removes the item at `idx`, moving everything after it one step to
    /// the left, and returns it.  An index at or beyond the length is out
    /// of bounds and is ruled out.  The capacity is kept.
    pub fn remove(&mut self, idx: usize) -> (r: T)
        requires
            idx < old(self)@.len(),
        ensures
            r == old(self)@[idx as int],
            final(self)@ == old(self)@.remove(idx as int),
            final(self).spec_capacity() == old(self).spec_capacity(),
    {
        proof {
            use_type_invariant(&*self);
        }
        let mut data: Vec<T> = Vec::new();
        core::mem::swap(&mut self.data, &mut data);
        let r = data.remove(idx);
        core::mem::swap(&mut self.data, &mut data);
        r
    }

    /// Removes every element in the vector.  The capacity is kept.
    pub fn clear(&mut self)
        ensures
            final(self)@ == Seq::<T>::empty(),
            final(self).spec_capacity() == old(self).spec_capacity(),
    {
        proof {
            use_type_invariant(&*self);
        }
        let mut data: Vec<T> = Vec::new();
        core::mem::swap(&mut self.data, &mut data);
        data.clear();
        core::mem::swap(&mut self.data, &mut data);
    }

    /// Builds a vector holding the elements of `v`, in the same order,
    /// with capacity for exactly those elements.
    pub fn from_vec(v: Vec<T>) -> (r: Self)
        ensures
            r@ == v@,
            r.spec_capacity() == (if storage_free::<T>() {
                usize::MAX as nat
            } else {
                v@.len()
            }),
    {
        let n = v.len();
        let capacity: usize = if core::mem::size_of::<T>() == 0 {
            usize::MAX
        } else {
            n
        };
        Vector { data: v, capacity }
    }

    /// Borrows the vector's live elements as an immutable slice.
    pub fn as_slice(&self) -> (s: &[T])
        ensures
            s@ == self@,
    {
        self.data.as_slice()
    }

    /// Keeps only the elements for which the predicate holds, compacting
    /// them towards the front in one pass; the rest are dropped.  The
    /// predicate must decide each element one way: two calls on equal
    /// arguments may not disagree.
    pub fn retain<F: Fn(&T) -> bool>(&mut self, f: F)
        requires
            forall|t: &T| #[trigger] f.requires((t,)),
            forall|t: &T, b1: bool, b2: bool|
                f.ensures((t,), b1) && f.ensures((t,), b2) ==> b1 == b2,
        ensures
            final(self)@ == old(self)@.filter(|x: T| f.ensures((&x, ), true)),
            final(self).spec_capacity() == old(self).spec_capacity(),
    {
        proof {
            use_type_invariant(&*self);
        }
        let ghost pred = |x: T| f.ensures((&x, ), true);
        let mut data: Vec<T> = Vec::new();
        core::mem::swap(&mut self.data, &mut data);
        let mut kept: Vec<T> = Vec::new();
        proof {
            assert(old(self)@.subrange(0, 0int) =~= Seq::<T>::empty());
            reveal_with_fuel(Seq::filter, 2);
        }
        while data.len() > 0
            invariant
                forall|t: &T| #[trigger] f.requires((t,)),
                forall|t: &T, b1: bool, b2: bool|
                    f.ensures((t,), b1) && f.ensures((t,), b2) ==> b1 == b2,
                pred == (|x: T| f.ensures((&x, ), true)),
                data@.len() <= old(self)@.len(),
                data@ == old(self)@.subrange(
                    old(self)@.len() - data@.len(),
                    old(self)@.len() as int,
                ),
                kept@ == old(self)@.subrange(0, old(self)@.len() - data@.len()).filter(pred),
            decreases data@.len(),
        {
            let x = data.remove(0);
            let ghost done = old(self)@.len() - data@.len() - 1;
            let keep = f(&x);
            proof {
                let prefix = old(self)@.subrange(0, done);
                let step = old(self)@.subrange(0, done + 1);
                assert(step =~= prefix.push(x));
                lemma_filter_one_more(prefix, x, pred);
                assert(old(self)@.subrange(
                    old(self)@.len() - data@.len(),
                    old(self)@.len() as int,
                ) =~= data@);
            }
            if keep {
                kept.push(x);
            }
        }
        proof {
            assert(old(self)@.subrange(0, old(self)@.len() as int) =~= old(self)@);
        }
        core::mem::swap(&mut self.data, &mut kept);
    }
}

/// The next capacity after a full buffer of `cap` slots.
fn grown_capacity(cap: usize) -> (r: usize)
    requires
        cap > 0,
    ensures
        r == grown_capacity_spec(cap as nat),
        r >= cap,
{
    let quarter: usize = cap / 4 + (if cap % 4 == 0 {
        0
    } else {
        1
    });
    if cap > usize::MAX - quarter {
        usize::MAX
    } else {
        cap + quarter
    }
}

/// Filtering a sequence extended by one element keeps the element exactly
/// when the predicate holds of it.
proof fn lemma_filter_one_more<T>(s: Seq<T>, x: T, pred: spec_fn(T) -> bool)
    ensures
        s.push(x).filter(pred) == (if pred(x) {
            s.filter(pred).push(x)
        } else {
            s.filter(pred)
        }),
    decreases s.len(),
{
    reveal(Seq::filter);
    assert(s.push(x).drop_last() =~= s);
    assert(s.push(x).last() == x);
}

/// Compares two vectors elementwise; short-circuits on length mismatch.
impl<T: PartialEq> PartialEq for Vector<T> {
    fn eq(&self, other: &Self) -> (r: bool) {
        self.data == other.data
    }
}

impl<T: PartialEq> vstd::std_specs::cmp::PartialEqSpecImpl for Vector<T> {
    open spec fn obeys_eq_spec() -> bool {
        T::obeys_eq_spec()
    }

    open spec fn eq_spec(&self, other: &Self) -> bool {
        &&& self@.len() == other@.len()
        &&& forall|i: int| #![auto] 0 <= i < self@.len() ==> self@[i].eq_spec(&other@[i])
    }
}


/// Equality ignores history: two vectors holding the same sequence of
/// elements compare equal, no matter the operations that built them,
/// whenever the element equality is the logical one.
pub proof fn lemma_eq_of_same_elements<T: PartialEq>(a: Vector<T>, b: Vector<T>)
    requires
        vstd::laws_eq::obeys_concrete_eq::<T>(),
        a@ == b@,
    ensures
        a.eq_spec(&b),
{
    reveal(vstd::laws_eq::obeys_concrete_eq);
}

/// Vectors of differing length never compare equal.
pub proof fn lemma_neq_of_lengths<T: PartialEq>(a: Vector<T>, b: Vector<T>)
    requires
        a@.len() != b@.len(),
    ensures
        !a.eq_spec(&b),
{
}


impl Vector<i32> {
    /// Renders the container as bracketed, comma-separated decimal
    /// text: the shape the standard debug formatting gives a sequence.
    pub fn debug_bytes(&self) -> (r: Vec<u8>)
        ensures
            r@ == spec_rendered(self@),
    {
        let n = self.len();
        let mut out: Vec<u8> = Vec::new();
        out.push(BRACKET_OPEN);
        if n == 0 {
            out.push(BRACKET_CLOSE);
            proof {
                assert(out@ =~= spec_rendered(self@));
            }
            return out;
        }
        let first = *self.get(0).unwrap();
        push_decimal(&mut out, first);
        proof {
            assert(self@.subrange(1, 1int) =~= Seq::<i32>::empty());
            assert(out@ =~= seq![BRACKET_OPEN] + spec_decimal(self@.first() as int)
                + spec_rendered_tail(self@.subrange(1, 1int)));
        }
        let mut i: usize = 1;
        while i < n
            invariant
                n == self@.len(),
                1 <= i <= n,
                out@ == seq![BRACKET_OPEN] + spec_decimal(self@.first() as int)
                    + spec_rendered_tail(self@.subrange(1, i as int)),
            decreases n - i,
        {
            let v = *self.get(i).unwrap();
            out.push(COMMA);
            out.push(SPACE);
            push_decimal(&mut out, v);
            proof {
                assert(self@.subrange(1, i + 1) =~= self@.subrange(1, i as int).push(
                    self@[i as int],
                ));
                lemma_rendered_tail_push(self@.subrange(1, i as int), v);
                assert(out@ =~= seq![BRACKET_OPEN] + spec_decimal(self@.first() as int)
                    + spec_rendered_tail(self@.subrange(1, i + 1)));
            }
            i = i + 1;
        }
        out.push(BRACKET_CLOSE);
        proof {
            assert(self@.subrange(1, n as int) =~= self@.drop_first());
            assert(out@ =~= spec_rendered(self@));
        }
        out
    }
}


/// The default is the empty container.
impl<T> Default for Vector<T> {
    fn default() -> (r: Self)
        ensures
            r@ == Seq::<T>::empty(),
    {
        Self::new()
    }
}

} // verus!
