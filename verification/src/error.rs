//! The marker error of the containers.

use vstd::prelude::*;

verus! {

/// A marker error reported by container operations, most often for an
/// index that was out of bounds.
#[derive(Debug, Copy, Clone, PartialEq, Eq, PartialOrd, Ord)]
pub struct ListError {}

} // verus!
