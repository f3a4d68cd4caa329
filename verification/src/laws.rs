//! The general laws of the containers, stated over their sequence
//! model and proved once for every container whose contracts speak of
//! that model.

use vstd::prelude::*;

verus! {

/// One mutation of a sequence container: an insertion at a position or
/// a removal from one.  Pushing and popping at either end are the
/// boundary positions of these.
pub enum ContainerOp<T> {
    Insert(int, T),
    Remove(int),
}

/// The sequence after one operation.
pub open spec fn apply_op<T>(s: Seq<T>, op: ContainerOp<T>) -> Seq<T> {
    match op {
        ContainerOp::Insert(i, x) => s.insert(i, x),
        ContainerOp::Remove(i) => s.remove(i),
    }
}

/// The sequence after a string of operations, applied left to right.
pub open spec fn apply_ops<T>(s: Seq<T>, ops: Seq<ContainerOp<T>>) -> Seq<T>
    decreases ops.len(),
{
    if ops.len() == 0 {
        s
    } else {
        apply_ops(apply_op(s, ops.first()), ops.drop_first())
    }
}

/// Every operation lands inside the sequence as it is at its turn.
pub open spec fn ops_valid<T>(s: Seq<T>, ops: Seq<ContainerOp<T>>) -> bool
    decreases ops.len(),
{
    if ops.len() == 0 {
        true
    } else {
        let ok = match ops.first() {
            ContainerOp::Insert(i, _) => 0 <= i <= s.len(),
            ContainerOp::Remove(i) => 0 <= i < s.len(),
        };
        ok && ops_valid(apply_op(s, ops.first()), ops.drop_first())
    }
}

/// The net element count of a string of operations: one more for every
/// insertion, one fewer for every removal.
pub open spec fn net_count<T>(ops: Seq<ContainerOp<T>>) -> int
    decreases ops.len(),
{
    if ops.len() == 0 {
        0int
    } else {
        (match ops.first() {
            ContainerOp::Insert(_, _) => 1int,
            ContainerOp::Remove(_) => -1int,
        }) + net_count(ops.drop_first())
    }
}

/// Length invariant: after any valid string of insertions and removals
/// the length is the starting length plus the net count of the
/// operations.
pub proof fn lemma_length_is_net_count<T>(s: Seq<T>, ops: Seq<ContainerOp<T>>)
    requires
        ops_valid(s, ops),
    ensures
        apply_ops(s, ops).len() == s.len() + net_count(ops),
    decreases ops.len(),
{
    if ops.len() > 0 {
        lemma_length_is_net_count(apply_op(s, ops.first()), ops.drop_first());
    }
}

/// Split/append round-trip: splitting a sequence at any valid index and
/// appending the two parts restores the original sequence.  This is what
/// `split_off` followed by `append` does to a list: `split_off` leaves
/// the first `i` elements and returns the rest, and `append` joins them
/// back and leaves the split-off list empty.
pub proof fn lemma_split_append_round_trip<T>(s: Seq<T>, i: int)
    requires
        0 <= i <= s.len(),
    ensures
        s.subrange(0, i) + s.subrange(i, s.len() as int) == s,
{
    assert(s.subrange(0, i) + s.subrange(i, s.len() as int) =~= s);
}

/// Reverse symmetry: taking from the back of the remaining elements is
/// taking from the front of their reverse, so a full backward iteration
/// yields exactly the reverse of a full forward iteration.
pub proof fn lemma_reverse_symmetry<T>(s: Seq<T>)
    requires
        s.len() > 0,
    ensures
        s.last() == s.reverse().first(),
        s.drop_last().reverse() == s.reverse().drop_first(),
{
    assert(s.drop_last().reverse() =~= s.reverse().drop_first());
}

} // verus!
