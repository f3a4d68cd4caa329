//! Double-ended iterators over a `List`.
//!
//! The owning iterator pops elements off its list until the list is
//! empty.  The borrowing iterator keeps a front and a back cursor on two
//! slots of the live list, follows the links to advance, and recognises
//! exhaustion when the cursors name the same slot: slot identity, not
//! element value, decides when the two directions have met.

use vstd::prelude::*;

use crate::list::List;

verus! {

/// An iterator that owns its list and yields owned elements from either
/// end.  Whatever has not been taken when the iterator is discarded is
/// dropped with the list it still holds.
pub struct ListIterator<T> {
    list: List<T>,
}

impl<T> View for ListIterator<T> {
    type V = Seq<T>;

    closed spec fn view(&self) -> Seq<T> {
        self.list@
    }
}

impl<T> ListIterator<T> {
    /// Takes the next element from the front, or nothing when the list
    /// has run out.
    pub fn next(&mut self) -> (r: Option<T>)
        ensures
            old(self)@.len() == 0 ==> r is None && final(self)@ == old(self)@,
            old(self)@.len() > 0 ==> r == Some(old(self)@.first()) && final(self)@ == old(
                self,
            )@.drop_first(),
    {
        if self.list.is_empty() {
            return None;
        }
        Some(self.list.pop_front())
    }

    /// Takes the next element from the back, or nothing when the list
    /// has run out.
    pub fn next_back(&mut self) -> (r: Option<T>)
        ensures
            old(self)@.len() == 0 ==> r is None && final(self)@ == old(self)@,
            old(self)@.len() > 0 ==> r == Some(old(self)@.last()) && final(self)@ == old(
                self,
            )@.drop_last(),
    {
        if self.list.is_empty() {
            return None;
        }
        Some(self.list.pop_back())
    }
}

/// An iterator over borrowed elements of a live list.  The two cursors
/// name the slots of the next front and back elements; both are absent
/// once the iterator is exhausted.
pub struct BorrowedListIterator<'a, T> {
    list: &'a List<T>,
    front: Option<usize>,
    back: Option<usize>,
    fpos: Ghost<int>,
    bpos: Ghost<int>,
}

impl<'a, T> BorrowedListIterator<'a, T> {
    #[verifier::type_invariant]
    spec fn inv(self) -> bool {
        match (self.front, self.back) {
            (Some(fs), Some(bs)) => {
                &&& 0 <= self.fpos@ <= self.bpos@ < self.list.arena.order@.len()
                &&& fs == self.list.arena.order@[self.fpos@]
                &&& bs == self.list.arena.order@[self.bpos@]
            },
            (None, None) => true,
            _ => false,
        }
    }

    /// The elements not yet yielded, in order.
    pub closed spec fn remaining(&self) -> Seq<T> {
        match (self.front, self.back) {
            (Some(fs), Some(bs)) => self.list@.subrange(self.fpos@, self.bpos@ + 1),
            _ => Seq::empty(),
        }
    }

    /// Takes a reference to the next element from the front, or nothing
    /// when the cursors have met and both directions are exhausted.
    pub fn next(&mut self) -> (r: Option<&'a T>)
        ensures
            old(self).remaining().len() == 0 ==> r is None && final(self).remaining() == old(
                self,
            ).remaining(),
            old(self).remaining().len() > 0 ==> (match r {
                Some(v) => *v == old(self).remaining().first() && final(self).remaining() == old(
                    self,
                ).remaining().drop_first(),
                None => false,
            }),
    {
        proof {
            use_type_invariant(&*self);
            use_type_invariant(self.list);
        }
        match (self.front, self.back) {
            (Some(fs), Some(bs)) => {
                proof {
                    assert(self.list.arena.slot_ok(self.fpos@));
                }
                let node = self.list.arena.nodes[fs].as_ref().unwrap();
                let value = &node.val;
                if fs == bs {
                    proof {
                        assert(self.fpos@ == self.bpos@);
                        assert(old(self).remaining().len() == 1);
                    }
                    *self = BorrowedListIterator {
                        list: self.list,
                        front: None,
                        back: None,
                        fpos: self.fpos,
                        bpos: self.bpos,
                    };
                    proof {
                        assert(self.remaining() =~= old(self).remaining().drop_first());
                    }
                    Some(value)
                } else {
                    proof {
                        assert(self.fpos@ != self.bpos@);
                    }
                    *self = BorrowedListIterator {
                        list: self.list,
                        front: node.next,
                        back: self.back,
                        fpos: Ghost(self.fpos@ + 1),
                        bpos: self.bpos,
                    };
                    proof {
                        assert(self.remaining() =~= old(self).remaining().drop_first());
                    }
                    Some(value)
                }
            },
            _ => None,
        }
    }

    /// Takes a reference to the next element from the back, or nothing
    /// when the cursors have met and both directions are exhausted.
    pub fn next_back(&mut self) -> (r: Option<&'a T>)
        ensures
            old(self).remaining().len() == 0 ==> r is None && final(self).remaining() == old(
                self,
            ).remaining(),
            old(self).remaining().len() > 0 ==> (match r {
                Some(v) => *v == old(self).remaining().last() && final(self).remaining() == old(
                    self,
                ).remaining().drop_last(),
                None => false,
            }),
    {
        proof {
            use_type_invariant(&*self);
            use_type_invariant(self.list);
        }
        match (self.front, self.back) {
            (Some(fs), Some(bs)) => {
                proof {
                    assert(self.list.arena.slot_ok(self.bpos@));
                }
                let node = self.list.arena.nodes[bs].as_ref().unwrap();
                let value = &node.val;
                if fs == bs {
                    proof {
                        assert(self.fpos@ == self.bpos@);
                        assert(old(self).remaining().len() == 1);
                    }
                    *self = BorrowedListIterator {
                        list: self.list,
                        front: None,
                        back: None,
                        fpos: self.fpos,
                        bpos: self.bpos,
                    };
                    proof {
                        assert(self.remaining() =~= old(self).remaining().drop_last());
                    }
                    Some(value)
                } else {
                    proof {
                        assert(self.fpos@ != self.bpos@);
                    }
                    *self = BorrowedListIterator {
                        list: self.list,
                        front: self.front,
                        back: node.prev,
                        fpos: self.fpos,
                        bpos: Ghost(self.bpos@ - 1),
                    };
                    proof {
                        assert(self.remaining() =~= old(self).remaining().drop_last());
                    }
                    Some(value)
                }
            },
            _ => None,
        }
    }
}

impl<T> List<T> {
    /// Turns the list into an iterator that owns its elements.
    pub fn into_iter(self) -> (it: ListIterator<T>)
        ensures
            it@ == self@,
    {
        ListIterator { list: self }
    }

    /// Returns an iterator over borrowed elements of the list.
    pub fn iter(&self) -> (it: BorrowedListIterator<'_, T>)
        ensures
            it.remaining() == self@,
    {
        proof {
            use_type_invariant(self);
        }
        if self.is_empty() {
            let it = BorrowedListIterator {
                list: self,
                front: None,
                back: None,
                fpos: Ghost(0int),
                bpos: Ghost(0int),
            };
            proof {
                assert(it.remaining() =~= self@);
            }
            it
        } else {
            let it = BorrowedListIterator {
                list: self,
                front: self.arena.start,
                back: self.arena.end,
                fpos: Ghost(0int),
                bpos: Ghost(self.arena.order@.len() - 1),
            };
            proof {
                assert(it.remaining() =~= self@);
            }
            it
        }
    }
}

} // verus!
