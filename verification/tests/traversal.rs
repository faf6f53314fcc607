//! Borrowed and consuming traversals.

use ring_buffer::RingBuffer;

#[test]
fn test_iter() {
    let mut rb = RingBuffer::<i32>::with_capacity(6);

    // [5, 6, ., 1, 2, 3, 4]
    rb.push_back(5);
    rb.push_back(6);
    rb.push_front(4);
    rb.push_front(3);
    rb.push_front(2);
    rb.push_front(1);

    let mut values: Vec<i32> = Vec::new();
    let mut it = rb.iter();
    while let Some(v) = it.next() {
        values.push(*v);
    }
    assert_eq!(values, [1, 2, 3, 4, 5, 6]);
}

#[test]
fn test_into_iter() {
    let mut rb = RingBuffer::<i32>::with_capacity(6);

    // [5, 6, ., 1, 2, 3, 4]
    rb.push_back(5);
    rb.push_back(6);
    rb.push_front(4);
    rb.push_front(3);
    rb.push_front(2);
    rb.push_front(1);

    let values: Vec<i32> = rb.into_iter().into_vec();
    assert_eq!(values, [1, 2, 3, 4, 5, 6]);
}

#[test]
fn iter_meets_in_the_middle() {
    let mut rb = RingBuffer::<i32>::with_capacity(4);
    rb.push_back(1);
    rb.push_back(2);
    rb.push_back(3);
    rb.push_back(4);

    let mut it = rb.iter();
    assert_eq!(it.len(), 4);
    assert_eq!(it.next(), Some(&1));
    assert_eq!(it.next_back(), Some(&4));
    assert_eq!(it.len(), 2);
    assert_eq!(it.next(), Some(&2));
    assert_eq!(it.next_back(), Some(&3));
    assert_eq!(it.len(), 0);
    assert_eq!(it.next(), None);
    assert_eq!(it.next_back(), None);
}

#[test]
fn into_iter_drains_both_ends() {
    let mut rb = RingBuffer::<i32>::with_capacity(3);
    rb.push_back(2);
    rb.push_front(1);
    rb.push_back(3);

    let mut it = rb.into_iter();
    assert_eq!(it.size_hint(), (3, Some(3)));
    assert_eq!(it.next_back(), Some(3));
    assert_eq!(it.next(), Some(1));
    assert_eq!(it.len(), 1);
    assert_eq!(it.next(), Some(2));
    assert_eq!(it.next(), None);
    assert_eq!(it.next_back(), None);
    assert_eq!(it.len(), 0);
}
