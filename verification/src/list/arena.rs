//! The node arena behind the doubly linked list.
//!
//! Nodes live in a growable vector of slots addressed by index, with an
//! explicit free list for reclaimed slots; the links between nodes are
//! slot indices rather than pointers, so every splice is a constant
//! number of link updates.  A ghost sequence records which slot holds the
//! element at each list position; well-formedness ties the links, the two
//! end handles and the cached length to that sequence.

use vstd::prelude::*;

use crate::list::list_node::ListNode;

verus! {

pub(crate) struct ListArena<T> {
    pub(crate) nodes: Vec<Option<ListNode<T>>>,
    pub(crate) free: Vec<usize>,
    pub(crate) start: Option<usize>,
    pub(crate) end: Option<usize>,
    pub(crate) len: usize,
    pub(crate) order: Ghost<Seq<usize>>,
}

impl<T> ListArena<T> {
    /// The elements of the list, in list order.
    pub(crate) open spec fn view(&self) -> Seq<T> {
        self.order@.map_values(|s: usize| self.nodes@[s as int].unwrap().val)
    }

    /// The slot of list position `k` exists, is occupied, and its links
    /// name the slots of the neighbouring positions.
    pub(crate) open spec fn slot_ok(&self, k: int) -> bool {
        let s = self.order@[k] as int;
        &&& s < self.nodes@.len()
        &&& self.nodes@[s] is Some
        &&& self.nodes@[s].unwrap().prev == (if k == 0 {
            None::<usize>
        } else {
            Some(self.order@[k - 1])
        })
        &&& self.nodes@[s].unwrap().next == (if k == self.order@.len() - 1 {
            None::<usize>
        } else {
            Some(self.order@[k + 1])
        })
    }

    /// Every entry of the free list is a distinct vacant slot.
    pub(crate) open spec fn free_ok(&self) -> bool {
        &&& self.free@.no_duplicates()
        &&& forall|k: int|
            0 <= k < self.free@.len() ==> (#[trigger] self.free@[k] as int) < self.nodes@.len()
                && self.nodes@[self.free@[k] as int] is None
    }

    /// Well-formedness: the ghost order is duplicate-free, every position
    /// is backed by a correctly linked slot, the end handles name the
    /// first and last positions, the cached length matches, and the free
    /// list is sound.
    pub(crate) open spec fn wf(&self) -> bool {
        &&& self.len == self.order@.len()
        &&& self.order@.no_duplicates()
        &&& forall|k: int| 0 <= k < self.order@.len() ==> #[trigger] self.slot_ok(k)
        &&& (self.order@.len() == 0 ==> self.start is None && self.end is None)
        &&& (self.order@.len() > 0 ==> self.start == Some(self.order@[0]) && self.end == Some(
            self.order@[self.order@.len() - 1],
        ))
        &&& self.free_ok()
    }

    /// An empty arena: no slots, no free entries, no ends.
    pub(crate) fn new() -> (a: Self)
        ensures
            a.wf(),
            a.view() == Seq::<T>::empty(),
            a.order@ == Seq::<usize>::empty(),
    {
        let a = ListArena {
            nodes: Vec::new(),
            free: Vec::new(),
            start: None,
            end: None,
            len: 0,
            order: Ghost(Seq::empty()),
        };
        proof {
            assert(a.view() =~= Seq::<T>::empty());
        }
        a
    }

    /// Stores `node` in a vacant slot, reusing a reclaimed one when the
    /// free list has any, and returns the slot's index.  Every other slot
    /// keeps its contents; the links, ends, length and order are untouched.
    fn alloc_slot(&mut self, node: ListNode<T>) -> (idx: usize)
        requires
            old(self).free_ok(),
        ensures
            final(self).free_ok(),
            final(self).start == old(self).start,
            final(self).end == old(self).end,
            final(self).len == old(self).len,
            final(self).order == old(self).order,
            (idx as int) < final(self).nodes@.len(),
            old(self).nodes@.len() <= final(self).nodes@.len(),
            final(self).nodes@[idx as int] == Some(node),
            forall|j: int|
                0 <= j < final(self).nodes@.len() && j != idx ==> j < old(self).nodes@.len()
                    && final(self).nodes@[j] == old(self).nodes@[j],
            (idx as int) < old(self).nodes@.len() ==> old(self).nodes@[idx as int] is None,
    {
        match self.free.pop() {
            Some(i) => {
                let slot = &mut self.nodes[i];
                *slot = Some(node);
                proof {
                    assert forall|k: int|
                        0 <= k < self.free@.len() implies (#[trigger] self.free@[k] as int)
                        < self.nodes@.len() && self.nodes@[self.free@[k] as int] is None by {
                        assert(old(self).free@[k] == self.free@[k]);
                        assert(old(self).free@[old(self).free@.len() - 1] == i);
                        assert(self.free@[k] != i);
                    }
                }
                i
            },
            None => {
                let idx = self.nodes.len();
                self.nodes.push(Some(node));
                idx
            },
        }
    }

    /// Empties the slot `s`, hands the node that was in it back, and puts
    /// the slot on the free list.  Every other slot keeps its contents;
    /// the links, ends, length and order are untouched.
    fn free_slot(&mut self, s: usize) -> (node: ListNode<T>)
        requires
            old(self).free_ok(),
            (s as int) < old(self).nodes@.len(),
            old(self).nodes@[s as int] is Some,
        ensures
            final(self).free_ok(),
            final(self).start == old(self).start,
            final(self).end == old(self).end,
            final(self).len == old(self).len,
            final(self).order == old(self).order,
            node == old(self).nodes@[s as int].unwrap(),
            final(self).nodes@ == old(self).nodes@.update(s as int, None),
    {
        let slot = &mut self.nodes[s];
        let taken = slot.take();
        proof {
            assert forall|k: int| 0 <= k < self.free@.len() implies self.free@[k] != s by {
                assert(old(self).nodes@[old(self).free@[k] as int] is None);
            }
        }
        self.free.push(s);
        taken.unwrap()
    }

    /// Redirects the forward link of the node in slot `s`.
    fn set_next(&mut self, s: usize, link: Option<usize>)
        requires
            (s as int) < old(self).nodes@.len(),
            old(self).nodes@[s as int] is Some,
        ensures
            final(self).start == old(self).start,
            final(self).end == old(self).end,
            final(self).len == old(self).len,
            final(self).order == old(self).order,
            final(self).free == old(self).free,
            final(self).nodes@ == old(self).nodes@.update(
                s as int,
                Some(
                    (ListNode {
                        val: old(self).nodes@[s as int].unwrap().val,
                        prev: old(self).nodes@[s as int].unwrap().prev,
                        next: link,
                    }),
                ),
            ),
    {
        let slot = &mut self.nodes[s];
        match slot {
            Some(node) => {
                node.next = link;
            },
            None => {},
        }
    }

    /// Redirects the backward link of the node in slot `s`.
    fn set_prev(&mut self, s: usize, link: Option<usize>)
        requires
            (s as int) < old(self).nodes@.len(),
            old(self).nodes@[s as int] is Some,
        ensures
            final(self).start == old(self).start,
            final(self).end == old(self).end,
            final(self).len == old(self).len,
            final(self).order == old(self).order,
            final(self).free == old(self).free,
            final(self).nodes@ == old(self).nodes@.update(
                s as int,
                Some(
                    (ListNode {
                        val: old(self).nodes@[s as int].unwrap().val,
                        prev: link,
                        next: old(self).nodes@[s as int].unwrap().next,
                    }),
                ),
            ),
    {
        let slot = &mut self.nodes[s];
        match slot {
            Some(node) => {
                node.prev = link;
            },
            None => {},
        }
    }

    /// No list position is backed by slot `idx` if the slot is vacant or
    /// beyond the arena.
    proof fn lemma_slot_fresh(&self, idx: usize)
        requires
            forall|k: int| 0 <= k < self.order@.len() ==> #[trigger] self.slot_ok(k),
            (idx as int) < self.nodes@.len() ==> self.nodes@[idx as int] is None,
        ensures
            forall|k: int| 0 <= k < self.order@.len() ==> #[trigger] self.order@[k] != idx,
    {
        assert forall|k: int| 0 <= k < self.order@.len() implies #[trigger] self.order@[k]
            != idx by {
            assert(self.slot_ok(k));
        }
    }

    /// The free list stays sound when an occupied slot's contents change
    /// in place.
    proof fn lemma_free_ok_after_update(pre: Self, post: Self, s: int)
        requires
            pre.free_ok(),
            post.free == pre.free,
            post.nodes@.len() == pre.nodes@.len(),
            forall|j: int|
                0 <= j < pre.nodes@.len() && j != s ==> post.nodes@[j] == pre.nodes@[j],
            0 <= s < pre.nodes@.len(),
            pre.nodes@[s] is Some,
        ensures
            post.free_ok(),
    {
        assert forall|k: int|
            0 <= k < post.free@.len() implies (#[trigger] post.free@[k] as int)
            < post.nodes@.len() && post.nodes@[post.free@[k] as int] is None by {
            assert(pre.free@[k] == post.free@[k]);
            assert(pre.nodes@[pre.free@[k] as int] is None);
        }
    }

    /// Splices `elem` in as the element at list position `index`, moving
    /// the positions at and after it one step towards the back.  The
    /// boundary positions reuse the end handles directly; an interior
    /// position is reached from whichever end is nearer and spliced in
    /// with two link updates.
    pub(crate) fn insert_at(&mut self, index: usize, elem: T)
        requires
            old(self).wf(),
            index as int <= old(self).view().len(),
            old(self).view().len() < usize::MAX,
        ensures
            final(self).wf(),
            final(self).view() == old(self).view().insert(index as int, elem),
    {
        let ghost ord0 = self.order@;
        let ghost n0 = self.order@.len() as int;
        if self.len == 0 {
            let idx = self.alloc_slot(ListNode { val: elem, next: None, prev: None });
            self.start = Some(idx);
            self.end = Some(idx);
            self.len = 1;
            let ghost neword = seq![idx];
            self.order = Ghost(neword);
            proof {
                assert(self.slot_ok(0));
                assert(self.view() =~= old(self).view().insert(index as int, elem));
            }
        } else if index == 0 {
            let s0 = self.start.unwrap();
            proof {
                assert(old(self).slot_ok(0));
            }
            let idx = self.alloc_slot(ListNode { val: elem, next: Some(s0), prev: None });
            proof {
                old(self).lemma_slot_fresh(idx);
            }
            let ghost mid = *self;
            self.set_prev(s0, Some(idx));
            self.start = Some(idx);
            self.len = self.len + 1;
            self.order = Ghost(ord0.insert(0, idx));
            proof {
                Self::lemma_free_ok_after_update(mid, *self, s0 as int);
                assert forall|k: int| 0 <= k < self.order@.len() implies #[trigger] self.slot_ok(
                    k,
                ) by {
                    assert(self.order@[k] == (if k == 0 {
                        idx
                    } else {
                        ord0[k - 1]
                    }));
                    if k >= 1 {
                        assert(old(self).slot_ok(k - 1));
                        if k >= 2 {
                            assert(ord0[k - 1] != ord0[0]);
                        }
                    }
                }
                assert(self.order@.no_duplicates()) by {
                    assert forall|i: int, j: int|
                        0 <= i < j < self.order@.len() implies self.order@[i] != self.order@[j] by {
                        if i >= 1 {
                            assert(ord0[i - 1] != ord0[j - 1]);
                        } else {
                            assert(self.order@[j] == ord0[j - 1]);
                        }
                    }
                }
                assert(self.view() =~= old(self).view().insert(index as int, elem)) by {
                    assert forall|m: int| 0 <= m < self.view().len() implies self.view()[m] == old(
                        self,
                    ).view().insert(index as int, elem)[m] by {
                        if m >= 1 {
                            assert(old(self).slot_ok(m - 1));
                            assert(ord0[m - 1] != ord0[0] || m == 1);
                        }
                    }
                }
            }
        } else if index == self.len {
            let s1 = self.end.unwrap();
            proof {
                assert(old(self).slot_ok(n0 - 1));
            }
            let idx = self.alloc_slot(ListNode { val: elem, next: None, prev: Some(s1) });
            proof {
                old(self).lemma_slot_fresh(idx);
            }
            let ghost mid = *self;
            self.set_next(s1, Some(idx));
            self.end = Some(idx);
            self.len = self.len + 1;
            self.order = Ghost(ord0.push(idx));
            proof {
                Self::lemma_free_ok_after_update(mid, *self, s1 as int);
                assert forall|k: int| 0 <= k < self.order@.len() implies #[trigger] self.slot_ok(
                    k,
                ) by {
                    if k < n0 {
                        assert(old(self).slot_ok(k));
                        if k < n0 - 1 {
                            assert(ord0[k] != ord0[n0 - 1]);
                        }
                    }
                }
                assert(self.order@.no_duplicates()) by {
                    assert forall|i: int, j: int|
                        0 <= i < j < self.order@.len() implies self.order@[i] != self.order@[j] by {
                        if j < n0 {
                            assert(ord0[i] != ord0[j]);
                        }
                    }
                }
                assert(self.view() =~= old(self).view().insert(index as int, elem)) by {
                    assert forall|m: int| 0 <= m < self.view().len() implies self.view()[m] == old(
                        self,
                    ).view().insert(index as int, elem)[m] by {
                        if m < n0 {
                            assert(old(self).slot_ok(m));
                            assert(ord0[m] != ord0[n0 - 1] || m == n0 - 1);
                        }
                    }
                }
            }
        } else {
            let c = if index <= self.len / 2 {
                self.slot_at_front(index)
            } else {
                self.slot_at_back(self.len - 1 - index)
            };
            proof {
                assert(old(self).slot_ok(index as int));
                assert(old(self).slot_ok(index as int - 1));
            }
            let a = self.nodes[c].as_ref().unwrap().prev.unwrap();
            let idx = self.alloc_slot(ListNode { val: elem, next: Some(c), prev: Some(a) });
            proof {
                old(self).lemma_slot_fresh(idx);
                assert(a == ord0[index - 1] && c == ord0[index as int]);
                assert(a != c);
            }
            let ghost mid1 = *self;
            self.set_next(a, Some(idx));
            proof {
                Self::lemma_free_ok_after_update(mid1, *self, a as int);
            }
            let ghost mid2 = *self;
            self.set_prev(c, Some(idx));
            self.len = self.len + 1;
            self.order = Ghost(ord0.insert(index as int, idx));
            proof {
                Self::lemma_free_ok_after_update(mid2, *self, c as int);
                assert forall|k: int| 0 <= k < self.order@.len() implies #[trigger] self.slot_ok(
                    k,
                ) by {
                    assert(self.order@[k] == (if k < index as int {
                        ord0[k]
                    } else if k == index as int {
                        idx
                    } else {
                        ord0[k - 1]
                    }));
                    if k < index as int {
                        assert(old(self).slot_ok(k));
                        assert(ord0[k] != ord0[index as int] || k == index as int);
                        if k != index as int - 1 {
                            assert(ord0[k] != ord0[index - 1]);
                        }
                    } else if k > index as int {
                        assert(old(self).slot_ok(k - 1));
                        if k - 1 != index as int - 1 {
                            assert(ord0[k - 1] != ord0[index - 1]);
                        }
                        if k - 1 != index as int {
                            assert(ord0[k - 1] != ord0[index as int]);
                        }
                    }
                }
                assert(self.order@.no_duplicates()) by {
                    assert forall|i: int, j: int|
                        0 <= i < j < self.order@.len() implies self.order@[i] != self.order@[j] by {
                        let oi = if i < index as int {
                            ord0[i]
                        } else if i == index as int {
                            idx
                        } else {
                            ord0[i - 1]
                        };
                        let oj = if j < index as int {
                            ord0[j]
                        } else if j == index as int {
                            idx
                        } else {
                            ord0[j - 1]
                        };
                        assert(self.order@[i] == oi && self.order@[j] == oj);
                    }
                }
                assert(self.view() =~= old(self).view().insert(index as int, elem)) by {
                    assert forall|m: int| 0 <= m < self.view().len() implies self.view()[m] == old(
                        self,
                    ).view().insert(index as int, elem)[m] by {
                        if m < index as int {
                            assert(old(self).slot_ok(m));
                            if m != index as int - 1 {
                                assert(ord0[m] != ord0[index - 1]);
                            }
                            assert(ord0[m] != ord0[index as int] || m == index as int);
                        } else if m > index as int {
                            assert(old(self).slot_ok(m - 1));
                            if m - 1 != index as int - 1 {
                                assert(ord0[m - 1] != ord0[index - 1]);
                            }
                            if m - 1 != index as int {
                                assert(ord0[m - 1] != ord0[index as int]);
                            }
                        }
                    }
                }
            }
        }
    }

    /// Unsplices the element at list position `index` and returns it,
    /// moving the positions after it one step towards the front.  The
    /// boundary positions reuse the end handles directly; an interior
    /// position is reached from whichever end is nearer, its two
    /// neighbours are relinked to each other, and its slot is reclaimed.
    #[verifier::rlimit(60)]
    pub(crate) fn remove_at(&mut self, index: usize) -> (r: T)
        requires
            old(self).wf(),
            (index as int) < old(self).view().len(),
        ensures
            final(self).wf(),
            final(self).view() == old(self).view().remove(index as int),
            r == old(self).view()[index as int],
    {
        let ghost ord0 = self.order@;
        let ghost n0 = self.order@.len() as int;
        proof {
            assert(old(self).slot_ok(index as int));
        }
        if self.len == 1 {
            let s0 = self.start.unwrap();
            let node = self.free_slot(s0);
            self.start = None;
            self.end = None;
            self.len = 0;
            let ghost neword = Seq::<usize>::empty();
            self.order = Ghost(neword);
            proof {
                assert(self.view() =~= old(self).view().remove(index as int));
            }
            node.val
        } else if index == 0 {
            let s0 = self.start.unwrap();
            let node = self.free_slot(s0);
            let s1 = node.next.unwrap();
            proof {
                assert(old(self).slot_ok(1));
                assert(ord0[1] != ord0[0]);
            }
            let ghost mid = *self;
            self.set_prev(s1, None);
            self.start = Some(s1);
            self.len = self.len - 1;
            self.order = Ghost(ord0.remove(0));
            proof {
                Self::lemma_free_ok_after_update(mid, *self, s1 as int);
                assert forall|k: int| 0 <= k < self.order@.len() implies #[trigger] self.slot_ok(
                    k,
                ) by {
                    assert(self.order@[k] == ord0[k + 1]);
                    assert(old(self).slot_ok(k + 1));
                    assert(ord0[k + 1] != ord0[0]);
                    if k >= 1 {
                        assert(ord0[k + 1] != ord0[1]);
                    }
                }
                assert(self.order@.no_duplicates()) by {
                    assert forall|i: int, j: int|
                        0 <= i < j < self.order@.len() implies self.order@[i] != self.order@[j] by {
                        assert(self.order@[i] == ord0[i + 1] && self.order@[j] == ord0[j + 1]);
                    }
                }
                assert(self.view() =~= old(self).view().remove(index as int)) by {
                    assert forall|m: int| 0 <= m < self.view().len() implies self.view()[m] == old(
                        self,
                    ).view().remove(index as int)[m] by {
                        assert(old(self).slot_ok(m + 1));
                        assert(ord0[m + 1] != ord0[0]);
                        if m >= 1 {
                            assert(ord0[m + 1] != ord0[1]);
                        }
                    }
                }
            }
            node.val
        } else if index == self.len - 1 {
            let s1 = self.end.unwrap();
            let node = self.free_slot(s1);
            let p = node.prev.unwrap();
            proof {
                assert(old(self).slot_ok(n0 - 2));
                assert(ord0[n0 - 2] != ord0[n0 - 1]);
            }
            let ghost mid = *self;
            self.set_next(p, None);
            self.end = Some(p);
            self.len = self.len - 1;
            self.order = Ghost(ord0.drop_last());
            proof {
                Self::lemma_free_ok_after_update(mid, *self, p as int);
                assert forall|k: int| 0 <= k < self.order@.len() implies #[trigger] self.slot_ok(
                    k,
                ) by {
                    assert(self.order@[k] == ord0[k]);
                    assert(old(self).slot_ok(k));
                    assert(ord0[k] != ord0[n0 - 1]);
                    if k < n0 - 2 {
                        assert(ord0[k] != ord0[n0 - 2]);
                    }
                }
                assert(self.order@.no_duplicates()) by {
                    assert forall|i: int, j: int|
                        0 <= i < j < self.order@.len() implies self.order@[i] != self.order@[j] by {
                        assert(self.order@[i] == ord0[i] && self.order@[j] == ord0[j]);
                    }
                }
                assert(self.view() =~= old(self).view().remove(index as int)) by {
                    assert forall|m: int| 0 <= m < self.view().len() implies self.view()[m] == old(
                        self,
                    ).view().remove(index as int)[m] by {
                        assert(old(self).slot_ok(m));
                        assert(ord0[m] != ord0[n0 - 1]);
                        if m < n0 - 2 {
                            assert(ord0[m] != ord0[n0 - 2]);
                        }
                    }
                }
            }
            node.val
        } else {
            let b = if index <= self.len / 2 {
                self.slot_at_front(index)
            } else {
                self.slot_at_back(self.len - 1 - index)
            };
            proof {
                assert(old(self).slot_ok(index as int - 1));
                assert(old(self).slot_ok(index as int + 1));
            }
            let node = self.free_slot(b);
            let a = node.prev.unwrap();
            let c = node.next.unwrap();
            proof {
                assert(a == ord0[index - 1] && c == ord0[index + 1]);
                assert(a != c && a != b && c != b);
            }
            let ghost mid1 = *self;
            self.set_next(a, Some(c));
            proof {
                Self::lemma_free_ok_after_update(mid1, *self, a as int);
            }
            let ghost mid2 = *self;
            self.set_prev(c, Some(a));
            self.len = self.len - 1;
            self.order = Ghost(ord0.remove(index as int));
            proof {
                Self::lemma_free_ok_after_update(mid2, *self, c as int);
                assert forall|k: int| 0 <= k < self.order@.len() implies #[trigger] self.slot_ok(
                    k,
                ) by {
                    assert(self.order@[k] == (if k < index as int {
                        ord0[k]
                    } else {
                        ord0[k + 1]
                    }));
                    if k < index as int {
                        assert(old(self).slot_ok(k));
                        assert(ord0[k] != ord0[index as int]);
                        if k != index as int - 1 {
                            assert(ord0[k] != ord0[index - 1]);
                        }
                        if k != index as int + 1 {
                            assert(ord0[k] != ord0[index + 1]);
                        }
                    } else {
                        assert(old(self).slot_ok(k + 1));
                        assert(ord0[k + 1] != ord0[index as int]);
                        if k + 1 != index as int - 1 {
                            assert(ord0[k + 1] != ord0[index - 1]);
                        }
                        if k + 1 != index as int + 1 {
                            assert(ord0[k + 1] != ord0[index + 1]);
                        }
                    }
                }
                assert(self.order@.no_duplicates()) by {
                    assert forall|i: int, j: int|
                        0 <= i < j < self.order@.len() implies self.order@[i] != self.order@[j] by {
                        let oi = if i < index as int {
                            ord0[i]
                        } else {
                            ord0[i + 1]
                        };
                        let oj = if j < index as int {
                            ord0[j]
                        } else {
                            ord0[j + 1]
                        };
                        assert(self.order@[i] == oi && self.order@[j] == oj);
                    }
                }
                assert(self.view() =~= old(self).view().remove(index as int)) by {
                    assert forall|m: int| 0 <= m < self.view().len() implies self.view()[m] == old(
                        self,
                    ).view().remove(index as int)[m] by {
                        if m < index as int {
                            assert(old(self).slot_ok(m));
                            assert(ord0[m] != ord0[index as int]);
                            if m != index as int - 1 {
                                assert(ord0[m] != ord0[index - 1]);
                            }
                            if m != index as int + 1 {
                                assert(ord0[m] != ord0[index + 1]);
                            }
                        } else {
                            assert(old(self).slot_ok(m + 1));
                            assert(ord0[m + 1] != ord0[index as int]);
                            if m + 1 != index as int - 1 {
                                assert(ord0[m + 1] != ord0[index - 1]);
                            }
                            if m + 1 != index as int + 1 {
                                assert(ord0[m + 1] != ord0[index + 1]);
                            }
                        }
                    }
                }
            }
            node.val
        }
    }

    /// Walks `i` forward links from the first node and returns the slot
    /// it arrives at: the slot of list position `i`.
    pub(crate) fn slot_at_front(&self, i: usize) -> (s: usize)
        requires
            self.wf(),
            (i as int) < self.view().len(),
        ensures
            s == self.order@[i as int],
    {
        let mut curr: usize = self.start.unwrap();
        let mut k: usize = 0;
        while k < i
            invariant
                self.wf(),
                (i as int) < self.view().len(),
                k <= i,
                curr == self.order@[k as int],
            decreases i - k,
        {
            proof {
                assert(self.slot_ok(k as int));
            }
            let node = self.nodes[curr].as_ref().unwrap();
            curr = node.next.unwrap();
            k = k + 1;
        }
        curr
    }

    /// Walks `i` backward links from the last node and returns the slot
    /// it arrives at: the slot of list position `len - 1 - i`.
    pub(crate) fn slot_at_back(&self, i: usize) -> (s: usize)
        requires
            self.wf(),
            (i as int) < self.view().len(),
        ensures
            s == self.order@[self.view().len() - 1 - i],
    {
        let ghost n = self.view().len() as int;
        let mut curr: usize = self.end.unwrap();
        let mut k: usize = 0;
        while k < i
            invariant
                self.wf(),
                (i as int) < self.view().len(),
                n == self.view().len(),
                k <= i,
                curr == self.order@[n - 1 - k],
            decreases i - k,
        {
            proof {
                assert(self.slot_ok(n - 1 - k));
            }
            let node = self.nodes[curr].as_ref().unwrap();
            curr = node.prev.unwrap();
            k = k + 1;
        }
        curr
    }
}

} // verus!
