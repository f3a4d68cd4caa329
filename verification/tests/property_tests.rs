use containers::List;
use containers::Tree;
use containers::Vector;

// Length invariant: the length after a sequence of operations is the
// net count of successful insertions minus removals.
#[test]
fn length_tracks_net_insertions() {
    let mut list = List::new();
    let mut net: usize = 0;
    for i in 0..20 {
        list.push_back(i);
        net += 1;
    }
    for _ in 0..5 {
        list.pop_front();
        net -= 1;
    }
    list.insert(3, 99);
    net += 1;
    list.remove(7);
    net -= 1;
    assert_eq!(list.len(), net);

    let mut vec = Vector::new();
    let mut net: usize = 0;
    for i in 0..20 {
        vec.push(i);
        net += 1;
    }
    for _ in 0..5 {
        vec.pop();
        net -= 1;
    }
    vec.insert(3, 99);
    net += 1;
    vec.remove(7);
    net -= 1;
    assert_eq!(vec.len(), net);
}

// Order preservation: forward iteration after a sequence of insertions
// matches a reference vector built the same way.
#[test]
fn order_matches_reference() {
    let mut list = List::new();
    let mut vec = Vector::new();
    let mut reference: Vec<i32> = Vec::new();
    let inserts = [(0usize, 4), (1, 7), (0, 2), (2, 9), (1, 5), (4, 1)];
    for (i, x) in inserts.iter() {
        list.insert(*i, *x);
        vec.insert(*i, *x);
        reference.insert(*i, *x);
    }
    for (i, expected) in reference.iter().enumerate() {
        assert_eq!(list.get(i), Some(expected));
        assert_eq!(vec.get(i), Some(expected));
    }
}

// Reverse symmetry: the backward iteration order is the exact reverse
// of the forward order, for both containers, after mutation.
#[test]
fn reverse_iteration_is_reverse() {
    let mut list: List<i32> = List::from_vec(vec![1, 2, 3, 4, 5, 6]);
    list.remove(2);
    list.insert(4, 42);
    let mut forward = Vec::new();
    let mut it = list.iter();
    while let Some(v) = it.next() {
        forward.push(*v);
    }
    let mut backward = Vec::new();
    let mut it = list.iter();
    while let Some(v) = it.next_back() {
        backward.push(*v);
    }
    backward.reverse();
    assert_eq!(forward, backward);

    let mut vec = Vector::from_vec(vec![1, 2, 3, 4, 5, 6]);
    vec.remove(2);
    vec.insert(4, 42);
    let mut forward = Vec::new();
    let mut it = vec.iter();
    while let Some(v) = it.next() {
        forward.push(*v);
    }
    let mut backward = Vec::new();
    let mut it = vec.iter();
    while let Some(v) = it.next_back() {
        backward.push(*v);
    }
    backward.reverse();
    assert_eq!(forward, backward);
}

// Split/append round-trip: splitting at a valid index and appending the
// part back restores the original sequence and leaves the rest empty.
#[test]
fn split_append_round_trip() {
    for i in 1..8 {
        let mut list: List<i32> = List::from_vec((0..8).collect());
        let mut rest = list.split_off(i);
        list.append(&mut rest);
        assert!(rest.is_empty());
        for j in 0..8usize {
            assert_eq!(list.get(j), Some(&(j as i32)));
        }
    }
}

// Zero-sized element handling: lengths are reported correctly for
// elements that occupy no storage.
#[derive(Copy, Clone, Debug, PartialEq)]
struct Mark;

#[test]
fn zero_sized_lengths() {
    let n = 100;
    let mut vec = Vector::new();
    for i in 0..n {
        vec.push(Mark);
        assert_eq!(vec.len(), i + 1);
    }
    vec.insert(50, Mark);
    assert_eq!(vec.len(), n + 1);
    vec.remove(0);
    assert_eq!(vec.len(), n);
    let mut count = 0;
    let mut it = vec.iter();
    while let Some(_) = it.next() {
        count += 1;
    }
    assert_eq!(count, n);
}

// Boundary removal, concrete scenario.
#[test]
fn boundary_removal() {
    let mut list: List<i32> = List::from_vec(vec![1, 2, 3, 4, 5, 6, 7, 8, 9]);
    assert_eq!(list.remove(2), 3);
    let expected = [1, 2, 4, 5, 6, 7, 8, 9];
    for (i, e) in expected.iter().enumerate() {
        assert_eq!(list.get(i), Some(e));
    }
    assert_eq!(list.remove(5), 7);
    let expected = [1, 2, 4, 5, 6, 8, 9];
    for (i, e) in expected.iter().enumerate() {
        assert_eq!(list.get(i), Some(e));
    }
    assert_eq!(list.get(7), None);
}

// Vector insert/remove, concrete scenario.
#[test]
fn vector_insert_remove() {
    let mut vec = Vector::new();
    vec.push(1);
    vec.push(2);
    vec.push(4);
    vec.push(5);
    vec.insert(2, 3);
    assert_eq!(vec.as_slice(), &[1, 2, 3, 4, 5]);
    assert_eq!(vec.remove(3), 4);
    assert_eq!(vec.as_slice(), &[1, 2, 3, 5]);
}

// Tree contains/remove/clean, concrete scenario.
#[test]
fn tree_contains_remove_clean() {
    let mut tree = Tree::new();
    assert!(!tree.add(5));
    assert!(!tree.add(3));
    assert!(!tree.add(8));
    assert!(!tree.add(1));
    assert!(tree.add(3));
    assert!(tree.contains(&3));
    assert_eq!(tree.remove(&3), Some(3));
    assert!(!tree.contains(&3));
    assert_eq!(tree.remove(&3), None);
    tree.clean();
    assert!(tree.contains(&5));
    assert!(tree.contains(&8));
    assert!(tree.contains(&1));
    assert!(!tree.contains(&3));
}

#[test]
fn tree_remove_leaf_then_clean() {
    let mut tree = Tree::new();
    tree.add(5);
    tree.add(3);
    tree.add(8);
    assert_eq!(tree.remove(&8), Some(8));
    tree.clean();
    assert!(tree.contains(&5));
    assert!(tree.contains(&3));
    assert!(!tree.contains(&8));
    // A pruned slot can be filled again.
    assert!(!tree.add(8));
    assert!(tree.contains(&8));
}

// Equality: containers built by different operation sequences with the
// same resulting elements compare equal; different lengths never do.
#[test]
fn equality_ignores_history() {
    let mut a: List<i32> = List::new();
    a.push_back(2);
    a.push_front(1);
    a.push_back(3);
    let b: List<i32> = List::from_vec(vec![1, 2, 3]);
    assert!(a == b);
    let c: List<i32> = List::from_vec(vec![1, 2]);
    assert!(a != c);

    let mut va: Vector<i32> = Vector::new();
    va.push(9);
    va.insert(0, 7);
    va.insert(1, 8);
    let vb = Vector::from_vec(vec![7, 8, 9]);
    assert!(va == vb);
    let vc = Vector::from_vec(vec![7, 8]);
    assert!(va != vc);
}
