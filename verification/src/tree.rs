//! An unbalanced binary search tree over partially ordered elements.
//!
//! Nodes own their children through `OwnedPointer`.  Insertion descends
//! by three-way comparison; an absent value marks the insertion point.
//! Removal clears a node's value and leaves the node standing as a
//! placeholder, so the structure around deeper children survives;
//! `clean` prunes placeholder leaves afterwards.  No rebalancing is ever
//! performed.  A node without a value separates nothing, so lookups and
//! removals treat its two subtrees symmetrically.

use vstd::prelude::*;

use crate::owned_pointer::OwnedPointer;

verus! {

use core::cmp::Ordering;
use vstd::std_specs::cmp::PartialOrdSpec;

/// What the tree relies on of `T`'s comparison: `partial_cmp` follows
/// its specification, resolves every pair, agrees with equality, is
/// antisymmetric and transitive.  The integer primitives satisfy all of
/// it.
pub open spec fn cmp_is_total_order<T: PartialOrd>() -> bool {
    &&& T::obeys_partial_cmp_spec()
    &&& forall|x: T, y: T| (#[trigger] x.partial_cmp_spec(&y)) is Some
    &&& forall|x: T, y: T| (#[trigger] x.partial_cmp_spec(&y)) == Some(Ordering::Equal) <==> x == y
    &&& forall|x: T, y: T|
        (#[trigger] x.partial_cmp_spec(&y)) == Some(Ordering::Less) <==> y.partial_cmp_spec(&x)
            == Some(Ordering::Greater)
    &&& forall|x: T, y: T, z: T|
        #![trigger x.partial_cmp_spec(&y), y.partial_cmp_spec(&z)]
        x.partial_cmp_spec(&y) == Some(Ordering::Less) && y.partial_cmp_spec(&z) == Some(
            Ordering::Less,
        ) ==> x.partial_cmp_spec(&z) == Some(Ordering::Less)
}

/// A binary search tree node: an optional held value and two optional
/// owned children.
pub struct Tree<T: PartialOrd> {
    val: Option<T>,
    left: Option<OwnedPointer<Tree<T>>>,
    right: Option<OwnedPointer<Tree<T>>>,
}

impl<T: PartialOrd> Tree<T> {
    /// The set of values held in the tree.
    pub closed spec fn values(self) -> Set<T>
        decreases self,
    {
        Self::sub_values(self.left).union(Self::sub_values(self.right)).union(
            match self.val {
                Some(v) => Set::empty().insert(v),
                None => Set::empty(),
            },
        )
    }

    /// The set of values held in an optional subtree.
    pub closed spec fn sub_values(sub: Option<OwnedPointer<Tree<T>>>) -> Set<T>
        decreases sub,
    {
        match sub {
            Some(p) => (*p.val).values(),
            None => Set::empty(),
        }
    }

    /// The search ordering.  A node's value compares `Less` than
    /// everything left of it and `Greater` than everything right of it,
    /// and the two subtrees stay separated even at a node whose value
    /// has been removed.
    pub closed spec fn wf(self) -> bool
        decreases self,
    {
        &&& (match self.val {
            Some(v) => {
                &&& forall|x: T|
                    #[trigger] Self::sub_values(self.left).contains(x) ==> v.partial_cmp_spec(&x)
                        == Some(Ordering::Less)
                &&& forall|x: T|
                    #[trigger] Self::sub_values(self.right).contains(x) ==> v.partial_cmp_spec(&x)
                        == Some(Ordering::Greater)
            },
            None => true,
        })
        &&& forall|x: T, y: T|
            #![trigger Self::sub_values(self.left).contains(x), Self::sub_values(self.right).contains(y)]
            Self::sub_values(self.left).contains(x) && Self::sub_values(self.right).contains(y)
                ==> x.partial_cmp_spec(&y) == Some(Ordering::Greater)
        &&& Self::sub_wf(self.left)
        &&& Self::sub_wf(self.right)
    }

    /// The search ordering of an optional subtree.
    pub closed spec fn sub_wf(sub: Option<OwnedPointer<Tree<T>>>) -> bool
        decreases sub,
    {
        match sub {
            Some(p) => (*p.val).wf(),
            None => true,
        }
    }

    /// No vacated placeholders: a node without a value has no children,
    /// so only the root of an empty tree lacks one.
    pub closed spec fn solid(self) -> bool
        decreases self,
    {
        &&& (self.val is None ==> self.left is None && self.right is None)
        &&& Self::sub_solid(self.left)
        &&& Self::sub_solid(self.right)
    }

    /// `solid` for an optional subtree.
    pub closed spec fn sub_solid(sub: Option<OwnedPointer<Tree<T>>>) -> bool
        decreases sub,
    {
        match sub {
            Some(p) => (*p.val).solid(),
            None => true,
        }
    }

    /// A node that holds nothing and has no children.
    pub closed spec fn vacant_leaf(self) -> bool {
        self.val is None && self.left is None && self.right is None
    }

    /// What `clean` leaves behind: no reachable child is a vacant leaf.
    pub closed spec fn pruned(self) -> bool
        decreases self,
    {
        &&& (match self.left {
            Some(p) => (*p.val).pruned() && !(*p.val).vacant_leaf(),
            None => true,
        })
        &&& (match self.right {
            Some(p) => (*p.val).pruned() && !(*p.val).vacant_leaf(),
            None => true,
        })
    }

    /// Creates an empty tree.
    pub fn new() -> (t: Self)
        ensures
            t.wf(),
            t.solid(),
            t.pruned(),
            t.values() == Set::<T>::empty(),
    {
        let t = Tree { val: None, left: None, right: None };
        proof {
            assert(t.values() =~= Set::<T>::empty());
        }
        t
    }

    /// Adds the element to the tree, descending by three-way comparison;
    /// a node with an absent value is the insertion point.  Returns
    /// whether the tree already contained the element, in which case
    /// nothing changes.  The tree must be solid: a placeholder that
    /// still has children would accept the element without regard for
    /// the values below it and so break the search ordering.
    pub fn add(&mut self, elem: T) -> (r: bool)
        requires
            cmp_is_total_order::<T>(),
            old(self).wf(),
            old(self).solid(),
        ensures
            final(self).wf(),
            final(self).solid(),
            final(self).values() == old(self).values().insert(elem),
            r == old(self).values().contains(elem),
        decreases *old(self),
    {
        let c: Option<Ordering> = match &self.val {
            None => None,
            Some(v) => v.partial_cmp(&elem),
        };
        match c {
            None => {
                self.val = Some(elem);
                proof {
                    assert(old(self).values() =~= Set::<T>::empty());
                    assert(self.values() =~= old(self).values().insert(elem));
                }
                false
            },
            Some(Ordering::Equal) => {
                proof {
                    let v = old(self).val.unwrap();
                    assert(v == elem);
                    assert(old(self).values().contains(elem));
                    assert(self.values() =~= old(self).values().insert(elem));
                }
                true
            },
            Some(Ordering::Less) => {
                let r = Self::add_sub(&mut self.left, elem);
                proof {
                    let v = old(self).val.unwrap();
                    assert(v.partial_cmp_spec(&elem) == Some(Ordering::Less));
                    if Self::sub_values(old(self).right).contains(elem) {
                        assert(v.partial_cmp_spec(&elem) == Some(Ordering::Greater));
                        assert(false);
                    }
                    if v == elem {
                        assert(v.partial_cmp_spec(&elem) == Some(Ordering::Equal));
                        assert(false);
                    }
                    assert(self.values() =~= old(self).values().insert(elem));
                    assert forall|x: T, y: T|
                        Self::sub_values(self.left).contains(x) && Self::sub_values(
                            self.right,
                        ).contains(y) implies x.partial_cmp_spec(&y) == Some(Ordering::Greater) by {
                        assert(v.partial_cmp_spec(&x) == Some(Ordering::Less));
                        assert(v.partial_cmp_spec(&y) == Some(Ordering::Greater));
                        assert(y.partial_cmp_spec(&v) == Some(Ordering::Less));
                        assert(y.partial_cmp_spec(&x) == Some(Ordering::Less));
                    }
                }
                r
            },
            Some(Ordering::Greater) => {
                let r = Self::add_sub(&mut self.right, elem);
                proof {
                    let v = old(self).val.unwrap();
                    assert(v.partial_cmp_spec(&elem) == Some(Ordering::Greater));
                    if Self::sub_values(old(self).left).contains(elem) {
                        assert(v.partial_cmp_spec(&elem) == Some(Ordering::Less));
                        assert(false);
                    }
                    if v == elem {
                        assert(v.partial_cmp_spec(&elem) == Some(Ordering::Equal));
                        assert(false);
                    }
                    assert(self.values() =~= old(self).values().insert(elem));
                    assert forall|x: T, y: T|
                        Self::sub_values(self.left).contains(x) && Self::sub_values(
                            self.right,
                        ).contains(y) implies x.partial_cmp_spec(&y) == Some(Ordering::Greater) by {
                        assert(v.partial_cmp_spec(&x) == Some(Ordering::Less));
                        assert(v.partial_cmp_spec(&y) == Some(Ordering::Greater));
                        assert(y.partial_cmp_spec(&v) == Some(Ordering::Less));
                        assert(y.partial_cmp_spec(&x) == Some(Ordering::Less));
                    }
                }
                r
            },
        }
    }

    /// Adds the element into an optional subtree, allocating the branch
    /// on first insertion.
    fn add_sub(sub: &mut Option<OwnedPointer<Tree<T>>>, elem: T) -> (r: bool)
        requires
            cmp_is_total_order::<T>(),
            Self::sub_wf(*old(sub)),
            Self::sub_solid(*old(sub)),
        ensures
            Self::sub_wf(*final(sub)),
            Self::sub_solid(*final(sub)),
            Self::sub_values(*final(sub)) == Self::sub_values(*old(sub)).insert(elem),
            r == Self::sub_values(*old(sub)).contains(elem),
        decreases *old(sub),
    {
        match sub.take() {
            None => {
                let t = Tree { val: Some(elem), left: None, right: None };
                proof {
                    assert(t.values() =~= Set::<T>::empty().insert(elem));
                }
                let p = OwnedPointer::new(t);
                proof {
                    p.lemma_view();
                }
                *sub = Some(p);
                proof {
                    assert(Self::sub_values(*sub) =~= Self::sub_values(*old(sub)).insert(elem));
                }
                false
            },
            Some(mut p) => {
                let r = (&mut *p.val).add(elem);
                *sub = Some(p);
                r
            },
        }
    }

    /// Tests whether the element is in the tree by a read-only descent
    /// with the same comparator; the two subtrees of a node with an
    /// absent value are both searched.
    pub fn contains(&self, elem: &T) -> (r: bool)
        requires
            cmp_is_total_order::<T>(),
            self.wf(),
        ensures
            r == self.values().contains(*elem),
        decreases *self,
    {
        let c: Option<Ordering> = match &self.val {
            None => None,
            Some(v) => v.partial_cmp(elem),
        };
        match c {
            None => {
                let r = Self::contains_sub(&self.left, elem) || Self::contains_sub(
                    &self.right,
                    elem,
                );
                proof {
                    assert(r == self.values().contains(*elem));
                }
                r
            },
            Some(Ordering::Equal) => {
                proof {
                    let v = self.val.unwrap();
                    assert(v == *elem);
                    assert(self.values().contains(*elem));
                }
                true
            },
            Some(Ordering::Less) => {
                proof {
                    let v = self.val.unwrap();
                    if Self::sub_values(self.right).contains(*elem) {
                        assert(v.partial_cmp_spec(elem) == Some(Ordering::Greater));
                        assert(false);
                    }
                    if v == *elem {
                        assert(v.partial_cmp_spec(elem) == Some(Ordering::Equal));
                        assert(false);
                    }
                }
                Self::contains_sub(&self.left, elem)
            },
            Some(Ordering::Greater) => {
                proof {
                    let v = self.val.unwrap();
                    if Self::sub_values(self.left).contains(*elem) {
                        assert(v.partial_cmp_spec(elem) == Some(Ordering::Less));
                        assert(false);
                    }
                    if v == *elem {
                        assert(v.partial_cmp_spec(elem) == Some(Ordering::Equal));
                        assert(false);
                    }
                }
                Self::contains_sub(&self.right, elem)
            },
        }
    }

    /// Tests membership in an optional subtree.
    fn contains_sub(sub: &Option<OwnedPointer<Tree<T>>>, elem: &T) -> (r: bool)
        requires
            cmp_is_total_order::<T>(),
            Self::sub_wf(*sub),
        ensures
            r == Self::sub_values(*sub).contains(*elem),
        decreases *sub,
    {
        match sub {
            None => false,
            Some(p) => (&*p.val).contains(elem),
        }
    }

    /// Removes the element from the tree and returns it if it was found.
    /// The node that held it keeps its place as an empty placeholder so
    /// that the structure around deeper children survives; `clean`
    /// prunes placeholder leaves.
    pub fn remove(&mut self, elem: &T) -> (r: Option<T>)
        requires
            cmp_is_total_order::<T>(),
            old(self).wf(),
        ensures
            final(self).wf(),
            final(self).values() == old(self).values().remove(*elem),
            r == (if old(self).values().contains(*elem) {
                Some(*elem)
            } else {
                None::<T>
            }),
        decreases *old(self),
    {
        let c: Option<Ordering> = match &self.val {
            None => None,
            Some(v) => v.partial_cmp(elem),
        };
        match c {
            None => {
                let first = Self::remove_sub(&mut self.left, elem);
                match first {
                    Some(x) => {
                        proof {
                            lemma_separated_no_common::<T>(
                                Self::sub_values(old(self).left),
                                Self::sub_values(old(self).right),
                                *elem,
                            );
                            assert(self.values() =~= old(self).values().remove(*elem));
                        }
                        Some(x)
                    },
                    None => {
                        let r = Self::remove_sub(&mut self.right, elem);
                        proof {
                            assert(self.values() =~= old(self).values().remove(*elem));
                        }
                        r
                    },
                }
            },
            Some(Ordering::Equal) => {
                let out = self.val.take();
                proof {
                    let v = old(self).val.unwrap();
                    assert(v == *elem);
                    if Self::sub_values(old(self).left).contains(*elem) {
                        assert(v.partial_cmp_spec(elem) == Some(Ordering::Less));
                        assert(v.partial_cmp_spec(&v) == Some(Ordering::Equal));
                        assert(false);
                    }
                    if Self::sub_values(old(self).right).contains(*elem) {
                        assert(v.partial_cmp_spec(elem) == Some(Ordering::Greater));
                        assert(v.partial_cmp_spec(&v) == Some(Ordering::Equal));
                        assert(false);
                    }
                    assert(old(self).values().contains(*elem));
                    assert(self.values() =~= old(self).values().remove(*elem));
                }
                out
            },
            Some(Ordering::Less) => {
                let r = Self::remove_sub(&mut self.left, elem);
                proof {
                    let v = old(self).val.unwrap();
                    if Self::sub_values(old(self).right).contains(*elem) {
                        assert(v.partial_cmp_spec(elem) == Some(Ordering::Greater));
                        assert(false);
                    }
                    if v == *elem {
                        assert(v.partial_cmp_spec(elem) == Some(Ordering::Equal));
                        assert(false);
                    }
                    assert(self.values() =~= old(self).values().remove(*elem));
                }
                r
            },
            Some(Ordering::Greater) => {
                let r = Self::remove_sub(&mut self.right, elem);
                proof {
                    let v = old(self).val.unwrap();
                    if Self::sub_values(old(self).left).contains(*elem) {
                        assert(v.partial_cmp_spec(elem) == Some(Ordering::Less));
                        assert(false);
                    }
                    if v == *elem {
                        assert(v.partial_cmp_spec(elem) == Some(Ordering::Equal));
                        assert(false);
                    }
                    assert(self.values() =~= old(self).values().remove(*elem));
                }
                r
            },
        }
    }

    /// Removes the element from an optional subtree.
    fn remove_sub(sub: &mut Option<OwnedPointer<Tree<T>>>, elem: &T) -> (r: Option<T>)
        requires
            cmp_is_total_order::<T>(),
            Self::sub_wf(*old(sub)),
        ensures
            Self::sub_wf(*final(sub)),
            Self::sub_values(*final(sub)) == Self::sub_values(*old(sub)).remove(*elem),
            r == (if Self::sub_values(*old(sub)).contains(*elem) {
                Some(*elem)
            } else {
                None::<T>
            }),
        decreases *old(sub),
    {
        match sub.take() {
            None => {
                proof {
                    assert(Self::sub_values(*sub) =~= Self::sub_values(*old(sub)).remove(*elem));
                }
                None
            },
            Some(mut p) => {
                let r = (&mut *p.val).remove(elem);
                *sub = Some(p);
                r
            },
        }
    }

    /// Compacts the tree: every child subtree that has been cleaned down
    /// to a placeholder with no children is detached.  The held values
    /// are untouched.
    pub fn clean(&mut self)
        requires
            old(self).wf(),
        ensures
            final(self).wf(),
            old(self).solid() ==> final(self).solid(),
            final(self).values() == old(self).values(),
            final(self).pruned(),
        decreases *old(self),
    {
        match self.left.take() {
            None => {},
            Some(mut p) => {
                (&mut *p.val).clean();
                let drop_it = {
                    let t = &*p.val;
                    t.val.is_none() && t.left.is_none() && t.right.is_none()
                };
                if !drop_it {
                    self.left = Some(p);
                } else {
                    proof {
                        assert((*p.val).values() =~= Set::<T>::empty());
                    }
                }
            },
        }
        proof {
            assert(Self::sub_values(self.left) == Self::sub_values(old(self).left)
                || Self::sub_values(self.left) =~= Set::<T>::empty());
        }
        match self.right.take() {
            None => {},
            Some(mut p) => {
                (&mut *p.val).clean();
                let drop_it = {
                    let t = &*p.val;
                    t.val.is_none() && t.left.is_none() && t.right.is_none()
                };
                if !drop_it {
                    self.right = Some(p);
                } else {
                    proof {
                        assert((*p.val).values() =~= Set::<T>::empty());
                    }
                }
            },
        }
        proof {
            assert(Self::sub_values(self.right) == Self::sub_values(old(self).right)
                || Self::sub_values(self.right) =~= Set::<T>::empty());
            assert(self.values() =~= old(self).values());
        }
    }
}

/// Two value sets separated by the search ordering have no common
/// member: the ordering would have to relate it strictly to itself.
proof fn lemma_separated_no_common<T: PartialOrd>(a: Set<T>, b: Set<T>, x: T)
    requires
        cmp_is_total_order::<T>(),
        forall|p: T, q: T|
            #![trigger a.contains(p), b.contains(q)]
            a.contains(p) && b.contains(q) ==> p.partial_cmp_spec(&q) == Some(Ordering::Greater),
    ensures
        !(a.contains(x) && b.contains(x)),
{
    if a.contains(x) && b.contains(x) {
        assert(x.partial_cmp_spec(&x) == Some(Ordering::Greater));
        assert(x.partial_cmp_spec(&x) == Some(Ordering::Equal));
    }
}


/// Any type whose `cmp` obeys the comparison laws of the standard
/// library, as the integer primitives do, orders totally in the sense
/// the tree relies on.
pub proof fn lemma_total_order_from_cmp_laws<T: Ord>()
    requires
        vstd::laws_cmp::obeys_cmp::<T>(),
        vstd::laws_eq::obeys_concrete_eq::<T>(),
    ensures
        cmp_is_total_order::<T>(),
{
    reveal(vstd::laws_cmp::obeys_cmp_partial_ord);
    reveal(vstd::laws_cmp::obeys_cmp_ord);
    reveal(vstd::laws_cmp::obeys_partial_cmp_spec_properties);
    reveal(vstd::laws_eq::obeys_eq_spec_properties);
    reveal(vstd::laws_eq::obeys_concrete_eq);
}


/// The default is the empty container.
impl<T: PartialOrd> Default for Tree<T> {
    fn default() -> (r: Self)
        ensures
            r.wf() && r.solid() && r.values() == Set::<T>::empty(),
    {
        Self::new()
    }
}

} // verus!
