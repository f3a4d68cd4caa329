use containers::Vector;

#[test]
fn test_i32_add_one() {
    let mut vec = Vector::new();
    vec.push(1);
    assert_eq!(vec.get(0), Some(&1));
}

#[test]
fn vec_i32_insert() {
    let mut vec = Vector::new();
    vec.push(1);
    vec.push(2);
    vec.push(4);
    vec.push(5);
    vec.insert(2, 3);
    assert_eq!(vec.get(0), Some(&1));
    assert_eq!(vec.get(1), Some(&2));
    assert_eq!(vec.get(2), Some(&3));
    assert_eq!(vec.get(3), Some(&4));
    assert_eq!(vec.get(4), Some(&5));
}

#[test]
fn vec_i32_remove() {
    let mut vec = Vector::new();
    vec.push(1);
    vec.push(2);
    vec.push(3);
    vec.push(4);
    vec.push(5);
    vec.remove(3);
    assert_eq!(vec.get(0), Some(&1));
    assert_eq!(vec.get(1), Some(&2));
    assert_eq!(vec.get(2), Some(&3));
    assert_eq!(vec.get(3), Some(&5));
    assert_eq!(vec.get(4), None);
}

#[test]
fn test_i32_as_slice() {
    let mut vec = Vector::new();
    vec.push(1);
    vec.push(2);
    vec.push(3);
    vec.push(4);
    vec.push(5);
    assert_eq!(vec.as_slice(), &[1, 2, 3, 4, 5]);
}

#[test]
fn test_i32_iterator() {
    let mut vec = Vector::with_capacity(5);
    vec.push(1);
    vec.push(2);
    vec.push(3);
    vec.push(4);
    vec.push(5);
    let std_vec = vec![1, 2, 3, 4, 5];
    let mut std_iter = std_vec.into_iter();
    let mut iter = vec.into_iter();
    for _ in 0..6 {
        assert_eq!(std_iter.next(), iter.next());
    }
}

#[test]
fn test_i32_back_iterator() {
    let mut vec = Vector::with_capacity(5);
    vec.push(1);
    vec.push(2);
    vec.push(3);
    vec.push(4);
    vec.push(5);
    let std_vec = vec![1, 2, 3, 4, 5];
    let mut std_iter = std_vec.into_iter().rev();
    let mut iter = vec.into_iter();
    for _ in 0..6 {
        assert_eq!(std_iter.next(), iter.next_back());
    }
}

#[test]
fn test_i32_both_iterator() {
    let mut list = Vector::new();
    list.push(1);
    list.push(2);
    list.push(3);
    let mut iter = list.into_iter();
    assert_eq!(iter.next(), Some(1));
    assert_eq!(iter.next_back(), Some(3));
    assert_eq!(iter.next(), Some(2));
    assert_eq!(iter.next_back(), None);
    assert_eq!(iter.next(), None);
}

#[test]
fn vec_i32_borrowed_iterator() {
    let mut vec = Vector::with_capacity(5);
    vec.push(1);
    vec.push(2);
    vec.push(3);
    vec.push(4);
    vec.push(5);
    let std_vec = vec![1, 2, 3, 4, 5];
    let mut std_iter = std_vec.iter();
    let mut iter = vec.iter();
    for _ in 0..6 {
        assert_eq!(std_iter.next(), iter.next());
    }
}

#[test]
fn test_i32_borrowed_back_iterator() {
    let mut vec = Vector::with_capacity(5);
    vec.push(1);
    vec.push(2);
    vec.push(3);
    vec.push(4);
    vec.push(5);
    let std_vec = vec![1, 2, 3, 4, 5];
    let mut std_iter = std_vec.iter().rev();
    let mut iter = vec.iter();
    for _ in 0..6 {
        assert_eq!(std_iter.next(), iter.next_back());
    }
}

#[test]
fn test_i32_borrowed_both_iterator() {
    let mut list = Vector::new();
    list.push(1);
    list.push(2);
    list.push(3);
    let mut iter = list.iter();
    assert_eq!(iter.next(), Some(&1));
    assert_eq!(iter.next_back(), Some(&3));
    assert_eq!(iter.next(), Some(&2));
    assert_eq!(iter.next_back(), None);
    assert_eq!(iter.next(), None);
}

#[test]
fn test_box_add_one() {
    let mut vec = Vector::new();
    vec.push(Box::new(1));
    assert_eq!(**vec.get(0).unwrap(), 1);
}

#[test]
fn test_box_insert() {
    let mut vec = Vector::new();
    vec.push(Box::new(1));
    vec.push(Box::new(2));
    vec.push(Box::new(4));
    vec.push(Box::new(5));
    vec.insert(2, Box::new(3));
    assert_eq!(**vec.get(0).unwrap(), 1);
    assert_eq!(**vec.get(1).unwrap(), 2);
    assert_eq!(**vec.get(2).unwrap(), 3);
    assert_eq!(**vec.get(3).unwrap(), 4);
    assert_eq!(**vec.get(4).unwrap(), 5);
}

#[test]
fn test_box_remove() {
    let mut vec = Vector::new();
    vec.push(Box::new(1));
    vec.push(Box::new(2));
    vec.push(Box::new(3));
    vec.push(Box::new(4));
    vec.push(Box::new(5));
    vec.remove(3);
    assert_eq!(**vec.get(0).unwrap(), 1);
    assert_eq!(**vec.get(1).unwrap(), 2);
    assert_eq!(**vec.get(2).unwrap(), 3);
    assert_eq!(**vec.get(3).unwrap(), 5);
    assert_eq!(vec.get(4), None);
}

#[test]
fn test_box_as_slice() {
    let mut vec = Vector::new();
    vec.push(Box::new(1));
    vec.push(Box::new(2));
    vec.push(Box::new(3));
    vec.push(Box::new(4));
    vec.push(Box::new(5));
    assert_eq!(
        vec.as_slice(),
        &[
            Box::new(1),
            Box::new(2),
            Box::new(3),
            Box::new(4),
            Box::new(5)
        ]
    );
}

#[test]
fn test_box_iterator() {
    let mut vec = Vector::with_capacity(5);
    vec.push(Box::new(1));
    vec.push(Box::new(2));
    vec.push(Box::new(3));
    vec.push(Box::new(4));
    vec.push(Box::new(5));
    let std_vec = vec![
        Box::new(1),
        Box::new(2),
        Box::new(3),
        Box::new(4),
        Box::new(5),
    ];
    let mut std_iter = std_vec.into_iter();
    let mut iter = vec.into_iter();
    for _ in 0..6 {
        assert_eq!(std_iter.next(), iter.next());
    }
}

#[test]
fn test_box_back_iterator() {
    let mut vec = Vector::with_capacity(5);
    vec.push(Box::new(1));
    vec.push(Box::new(2));
    vec.push(Box::new(3));
    vec.push(Box::new(4));
    vec.push(Box::new(5));
    let std_vec = vec![
        Box::new(1),
        Box::new(2),
        Box::new(3),
        Box::new(4),
        Box::new(5),
    ];
    let mut std_iter = std_vec.into_iter().rev();
    let mut iter = vec.into_iter();
    for _ in 0..6 {
        assert_eq!(std_iter.next(), iter.next_back());
    }
}

#[test]
fn test_box_both_iterator() {
    let mut vec = Vector::with_capacity(3);
    vec.push(Box::new(1));
    vec.push(Box::new(2));
    vec.push(Box::new(3));
    let mut iter = vec.into_iter();
    assert_eq!(iter.next(), Some(Box::new(1)));
    assert_eq!(iter.next_back(), Some(Box::new(3)));
    assert_eq!(iter.next(), Some(Box::new(2)));
    assert_eq!(iter.next_back(), None);
    assert_eq!(iter.next(), None);
}

#[test]
fn test_box_borrowed_iterator() {
    let mut vec = Vector::with_capacity(5);
    vec.push(Box::new(1));
    vec.push(Box::new(2));
    vec.push(Box::new(3));
    vec.push(Box::new(4));
    vec.push(Box::new(5));
    let std_vec = vec![
        Box::new(1),
        Box::new(2),
        Box::new(3),
        Box::new(4),
        Box::new(5),
    ];
    let mut std_iter = std_vec.iter();
    let mut iter = vec.iter();
    for _ in 0..6 {
        assert_eq!(std_iter.next(), iter.next());
    }
}

#[test]
fn test_box_borrowed_back_iterator() {
    let mut vec = Vector::with_capacity(5);
    vec.push(Box::new(1));
    vec.push(Box::new(2));
    vec.push(Box::new(3));
    vec.push(Box::new(4));
    vec.push(Box::new(5));
    let std_vec = vec![
        Box::new(1),
        Box::new(2),
        Box::new(3),
        Box::new(4),
        Box::new(5),
    ];
    let mut std_iter = std_vec.iter().rev();
    let mut iter = vec.iter();
    for _ in 0..6 {
        assert_eq!(std_iter.next(), iter.next_back());
    }
}

#[test]
fn test_box_borrowed_both_iterator() {
    let mut vec = Vector::with_capacity(3);
    vec.push(Box::new(1));
    vec.push(Box::new(2));
    vec.push(Box::new(3));
    let mut iter = vec.iter();
    assert_eq!(iter.next(), Some(&Box::new(1)));
    assert_eq!(iter.next_back(), Some(&Box::new(3)));
    assert_eq!(iter.next(), Some(&Box::new(2)));
    assert_eq!(iter.next_back(), None);
    assert_eq!(iter.next(), None);
}

#[derive(Copy, Clone, Debug, PartialEq)]
struct Zst;

#[test]
fn test_zst_add_one() {
    let mut vec = Vector::new();
    vec.push(1);
    assert_eq!(vec.get(0), Some(&1));
}

#[test]
fn test_zst_insert() {
    let mut vec = Vector::new();
    vec.push(Zst);
    vec.push(Zst);
    vec.push(Zst);
    vec.push(Zst);
    vec.insert(2, Zst);
    assert_eq!(vec.get(0), Some(&Zst));
    assert_eq!(vec.get(1), Some(&Zst));
    assert_eq!(vec.get(2), Some(&Zst));
    assert_eq!(vec.get(3), Some(&Zst));
    assert_eq!(vec.get(4), Some(&Zst));
}

#[test]
fn test_zst_remove() {
    let mut vec = Vector::new();
    vec.push(Zst);
    vec.push(Zst);
    vec.push(Zst);
    vec.push(Zst);
    vec.push(Zst);
    vec.remove(3);
    assert_eq!(vec.get(0), Some(&Zst));
    assert_eq!(vec.get(1), Some(&Zst));
    assert_eq!(vec.get(2), Some(&Zst));
    assert_eq!(vec.get(3), Some(&Zst));
    assert_eq!(vec.get(4), None);
}

#[test]
fn test_zst_as_slice() {
    let mut vec = Vector::new();
    vec.push(Zst);
    vec.push(Zst);
    vec.push(Zst);
    vec.push(Zst);
    vec.push(Zst);
    assert_eq!(vec.as_slice(), &[Zst, Zst, Zst, Zst, Zst]);
}

#[test]
fn test_zst_iterator() {
    let mut vec = Vector::with_capacity(5);
    vec.push(Zst);
    vec.push(Zst);
    vec.push(Zst);
    vec.push(Zst);
    vec.push(Zst);
    let std_vec = vec![Zst, Zst, Zst, Zst, Zst];
    let mut std_iter = std_vec.into_iter();
    let mut iter = vec.into_iter();
    for _ in 0..6 {
        assert_eq!(std_iter.next(), iter.next());
    }
}

#[test]
fn test_zst_back_iterator() {
    let mut vec = Vector::with_capacity(5);
    vec.push(Zst);
    vec.push(Zst);
    vec.push(Zst);
    vec.push(Zst);
    vec.push(Zst);
    let std_vec = vec![Zst, Zst, Zst, Zst, Zst];
    let mut std_iter = std_vec.into_iter().rev();
    let mut iter = vec.into_iter();
    for _ in 0..6 {
        assert_eq!(std_iter.next(), iter.next_back());
    }
}

#[test]
fn test_zst_both_iterator() {
    let mut list = Vector::new();
    list.push(Zst);
    list.push(Zst);
    list.push(Zst);
    let mut iter = list.into_iter();
    assert_eq!(iter.next(), Some(Zst));
    assert_eq!(iter.next_back(), Some(Zst));
    assert_eq!(iter.next(), Some(Zst));
    assert_eq!(iter.next_back(), None);
    assert_eq!(iter.next(), None);
}

#[test]
fn test_zst_borrowed_iterator() {
    let mut vec = Vector::with_capacity(5);
    vec.push(Zst);
    vec.push(Zst);
    vec.push(Zst);
    vec.push(Zst);
    vec.push(Zst);
    let std_vec = vec![Zst, Zst, Zst, Zst, Zst];
    let mut std_iter = std_vec.iter();
    let mut iter = vec.iter();
    for _ in 0..6 {
        assert_eq!(std_iter.next(), iter.next());
    }
}

#[test]
fn test_zst_borrowed_back_iterator() {
    let mut vec = Vector::with_capacity(5);
    vec.push(Zst);
    vec.push(Zst);
    vec.push(Zst);
    vec.push(Zst);
    vec.push(Zst);
    let std_vec = vec![Zst, Zst, Zst, Zst, Zst];
    let mut std_iter = std_vec.iter().rev();
    let mut iter = vec.iter();
    for _ in 0..6 {
        assert_eq!(std_iter.next(), iter.next_back());
    }
}

#[test]
fn test_zst_borrowed_both_iterator() {
    let mut list = Vector::new();
    list.push(Zst);
    list.push(Zst);
    list.push(Zst);
    let mut iter = list.iter();
    assert_eq!(iter.next(), Some(&Zst));
    assert_eq!(iter.next_back(), Some(&Zst));
    assert_eq!(iter.next(), Some(&Zst));
    assert_eq!(iter.next_back(), None);
    assert_eq!(iter.next(), None);
}

#[test]
fn vector_pop_and_clear() {
    let mut vec = Vector::new();
    vec.push(1);
    vec.push(2);
    assert_eq!(vec.pop(), Some(2));
    assert_eq!(vec.pop(), Some(1));
    assert_eq!(vec.pop(), None);
    vec.push(7);
    vec.push(8);
    vec.clear();
    assert!(vec.is_empty());
    assert_eq!(vec.len(), 0);
}

#[test]
fn vector_get_mut() {
    let mut vec = Vector::new();
    vec.push(1);
    vec.push(2);
    if let Some(m) = vec.get_mut(1) {
        *m = 9;
    }
    assert_eq!(vec.get(1), Some(&9));
    assert!(vec.get_mut(2).is_none());
}

#[test]
fn vector_retain() {
    let mut vec = Vector::new();
    for i in 1..=8 {
        vec.push(i);
    }
    vec.retain(|x: &i32| x % 2 == 0);
    assert_eq!(vec.as_slice(), &[2, 4, 6, 8]);
}

#[test]
fn vector_reserve_additional() {
    let mut vec = Vector::new();
    vec.push(1);
    vec.reserve_additional(10);
    assert_eq!(vec.as_slice(), &[1]);
}

#[test]
fn vector_print() {
    let arr = [7, -8, 9];
    let vec = Vector::from_vec(arr.to_vec());
    let text = String::from_utf8(vec.debug_bytes()).unwrap();
    let arr_str = format!("{:?}", arr);
    assert_eq!(text, arr_str);
}
