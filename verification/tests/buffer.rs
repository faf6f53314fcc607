//! Core buffer operations.

use ring_buffer::RingBuffer;

#[test]
fn test_new() {
    let rb = RingBuffer::<i32>::new();
    assert_eq!(rb.capacity(), 0);
    assert_eq!(rb.head_offset(), 0);
    assert_eq!(rb.len(), 0);
}

#[test]
fn test_with_capactiy() {
    let rb = RingBuffer::<i32>::with_capacity(11);
    assert!(rb.capacity() >= 11);
    assert_eq!(rb.head_offset(), 0);
    assert_eq!(rb.len(), 0);
}

#[test]
fn test_grow() {
    let mut rb = RingBuffer::<i32>::new();
    rb.grow();
    assert_eq!(rb.capacity(), 1);
    rb.grow();
    assert_eq!(rb.capacity(), 2);
    rb.grow();
    assert_eq!(rb.capacity(), 4);
    assert!(!rb.is_full());
    assert!(rb.is_empty());
}

#[test]
fn test_push_back() {
    let mut rb = RingBuffer::<i32>::new();

    rb.push_back(1);
    assert_eq!(rb.len(), 1);
    assert_eq!(rb.head_offset(), 0);
    assert_eq!(*rb.index(0), 1);
    assert!(rb.get(1).is_none());

    rb.push_back(2);
    assert_eq!(rb.len(), 2);
    assert_eq!(rb.head_offset(), 0);
    assert_eq!(*rb.index(0), 1);
    assert_eq!(*rb.index(1), 2);

    rb.push_back(3);
    assert_eq!(rb.len(), 3);
    assert_eq!(rb.head_offset(), 0);
    assert_eq!(*rb.index(0), 1);
    assert_eq!(*rb.index(1), 2);
    assert_eq!(*rb.index(2), 3);
}

#[test]
fn test_push_front() {
    let mut rb = RingBuffer::<i32>::new();

    rb.push_front(1);
    assert_eq!(rb.len(), 1);
    assert_eq!(rb.head_offset(), 0);
    assert_eq!(*rb.index(0), 1);
    assert!(rb.get(1).is_none());

    rb.push_front(2);
    assert_eq!(rb.len(), 2);
    assert_eq!(rb.head_offset(), 1);
    assert_eq!(*rb.index(0), 2);
    assert_eq!(*rb.index(1), 1);

    //     H         H               H  (see `grow` for why this happens)
    // [1, 2] -> [1, 2, ., .] -> [., 2, 1, .] -> [3, 2, 1, .]
    rb.push_front(3);
    assert_eq!(rb.len(), 3);
    assert_eq!(rb.head_offset(), 0);
    assert_eq!(*rb.index(0), 3);
    assert_eq!(*rb.index(1), 2);
    assert_eq!(*rb.index(2), 1);
}

#[test]
fn test_push() {
    let mut rb = RingBuffer::<i32>::with_capacity(10);

    //  H
    // [0, 1, 2, 3, 4, ., ., ., ., .]
    for i in 0..5 {
        rb.push_back(i);
    }

    //                          H
    // [0, 1, 2, 3, 4, ., ., ., 7, 6]
    rb.push_front(6);
    rb.push_front(7);
    assert_eq!(rb.len(), 7);
    assert_eq!(rb.head_offset(), 8); // 10 - 2 = 8
    assert_eq!(*rb.index(0), 7);
    assert_eq!(*rb.index(6), 4);
}

#[test]
fn test_pop_front() {
    let mut rb = RingBuffer::<i32>::with_capacity(10);

    // [3, ., ., 1, 2]
    rb.push_back(3);
    rb.push_front(2);
    rb.push_front(1);

    assert_eq!(rb.pop_front(), Some(1));
    assert_eq!(rb.pop_front(), Some(2));
    assert_eq!(rb.pop_front(), Some(3));
    assert_eq!(rb.pop_front(), None);
}

#[test]
fn test_pop_back() {
    let mut rb = RingBuffer::<i32>::with_capacity(10);

    // [3, ., ., 1, 2]
    rb.push_back(3);
    rb.push_front(2);
    rb.push_front(1);

    assert_eq!(rb.pop_back(), Some(3));
    assert_eq!(rb.pop_back(), Some(2));
    assert_eq!(rb.pop_back(), Some(1));
    assert_eq!(rb.pop_back(), None);
}

fn front_values(rb: &RingBuffer<i32>) -> Vec<i32> {
    let (first, _) = rb.as_slices();
    first.into_iter().copied().collect()
}

#[test]
fn test_make_contiguous() {
    let mut rb = RingBuffer::<i32>::with_capacity(10);

    // [3, 4, 5, ., ., ., ., ., 2, 1]
    rb.push_back(3);
    rb.push_back(4);
    rb.push_back(5);
    rb.push_front(2);
    rb.push_front(1);

    rb.make_contiguous();
    let slice = front_values(&rb);
    assert_eq!(slice.len(), 5);
    assert_eq!(slice, [1, 2, 3, 4, 5]);

    let mut rb = RingBuffer::<i32>::with_capacity(7);

    // [2, 3, 4, 5, ., ., 1]
    rb.push_back(2);
    rb.push_back(3);
    rb.push_back(4);
    rb.push_back(5);
    rb.push_front(1);

    rb.make_contiguous();
    let slice = front_values(&rb);
    assert_eq!(slice.len(), 5);
    assert_eq!(slice, [1, 2, 3, 4, 5]);

    let mut rb = RingBuffer::<i32>::with_capacity(7);

    // [3, 4, 5, 6, ., 1, 2]
    rb.push_back(3);
    rb.push_back(4);
    rb.push_back(5);
    rb.push_back(6);
    rb.push_front(2);
    rb.push_front(1);

    rb.make_contiguous();
    let slice = front_values(&rb);
    assert_eq!(slice.len(), 6);
    assert_eq!(slice, [1, 2, 3, 4, 5, 6]);

    let mut rb = RingBuffer::<i32>::with_capacity(6);

    // [5, 6, ., 1, 2, 3, 4]
    rb.push_back(5);
    rb.push_back(6);
    rb.push_front(4);
    rb.push_front(3);
    rb.push_front(2);
    rb.push_front(1);

    rb.make_contiguous();
    let slice = front_values(&rb);
    assert_eq!(slice.len(), 6);
    assert_eq!(slice, [1, 2, 3, 4, 5, 6]);
}

#[test]
fn test_as_slices() {
    let mut rb = RingBuffer::<i32>::with_capacity(5);

    // [3, ., ., 1, 2]
    rb.push_back(3);
    rb.push_front(2);
    rb.push_front(1);

    let (first, second) = rb.as_slices();
    let first: Vec<i32> = first.into_iter().copied().collect();
    let second: Vec<i32> = second.into_iter().copied().collect();
    assert_eq!(first, [1, 2]);
    assert_eq!(second, [3]);

    rb.make_contiguous();
    let (first, second) = rb.as_slices();
    let first: Vec<i32> = first.into_iter().copied().collect();
    assert_eq!(first, [1, 2, 3]);
    assert!(second.is_empty());
}
