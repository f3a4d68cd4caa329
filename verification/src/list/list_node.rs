//! The node type of the doubly linked list.

use vstd::prelude::*;

verus! {

/// A list node holding a value and the links to the next and previous
/// nodes in the list.  A link is the index of a slot in the list's node
/// arena; an absent link marks an end of the list.
pub struct ListNode<T> {
    pub(crate) val: T,
    pub(crate) next: Option<usize>,
    pub(crate) prev: Option<usize>,
}

} // verus!
