use sdr::chunked_deque::{ChunkedDeque, CHUNK_SIZE};

#[test]
fn test_basic_operations() {
    let mut deque = ChunkedDeque::new();

    deque.push_back(1);
    deque.push_back(2);
    deque.push_back(3);

    assert_eq!(deque.len(), 3);
    assert_eq!(*deque.front().unwrap(), 1);
    assert_eq!(*deque.back().unwrap(), 3);

    deque.push_front(0);
    assert_eq!(deque.len(), 4);
    assert_eq!(*deque.front().unwrap(), 0);

    let val = deque.pop_back().unwrap();
    assert_eq!(val, 3);
    assert_eq!(deque.len(), 3);

    let val = deque.pop_front().unwrap();
    assert_eq!(val, 0);
    assert_eq!(deque.len(), 2);
}

#[test]
fn test_structural_equality() {
    let mut deque1 = ChunkedDeque::new();

    for i in 0..10 {
        deque1.push_front(i);
    }

    for i in 0..10 {
        deque1.push_back(i);
    }

    let mut deque2 = deque1.clone();
    deque2.push_back(10);
    // deque1 has -10..10, deque3 has -10..11
    // They should be equal in the overlapping range -10..10
    assert!(deque2.is_continuation_of(&deque1));

    // Replace front element with a different one
    deque2.pop_front();
    deque2.push_front(999);
    // Since the front element changed, deque3 is no longer a continuation of deque1
    assert!(!deque2.is_continuation_of(&deque1));
}

#[test]
fn test_remove_front() {
    let mut deque = ChunkedDeque::new();

    for i in 0..20 {
        deque.push_back(i);
    }

    assert_eq!(deque.start_index(), 0);
    assert_eq!(deque.end_index(), 20);

    deque.remove_front(5);

    assert_eq!(deque.start_index(), 5);
    assert_eq!(deque.end_index(), 20);
    assert_eq!(deque.len(), 15);
    assert_eq!(*deque.front().unwrap(), 5);
}

#[test]
fn test_push_front_multiple() {
    let mut deque = ChunkedDeque::new();

    for i in 0..10 {
        deque.push_front(i);
    }

    assert_eq!(deque.len(), 10);
    assert_eq!(*deque.front().unwrap(), 9);
    assert_eq!(*deque.back().unwrap(), 0);
}

#[test]
fn test_crossing_chunk_boundaries() {
    let mut deque = ChunkedDeque::new();

    for i in 0..CHUNK_SIZE * 2 + 10 {
        deque.push_back(i);
    }

    for i in 0..CHUNK_SIZE * 2 + 10 {
        assert_eq!(*deque.get(i as isize).unwrap(), i);
    }

    assert_eq!(deque.chunk_count(), 3);
}

#[test]
fn test_negative_indices() {
    let mut deque = ChunkedDeque::new();

    for i in 0..10 {
        deque.push_back(i);
    }

    for i in 0..5 {
        deque.push_front(100 + i);
    }

    assert_eq!(deque.start_index(), -5);
    assert_eq!(deque.end_index(), 10);
    assert_eq!(deque.len(), 15);
    assert_eq!(*deque.get(-5).unwrap(), 104);
    assert_eq!(*deque.get(-1).unwrap(), 100);
    assert_eq!(*deque.get(0).unwrap(), 0);
    assert_eq!(*deque.get(9).unwrap(), 9);
}
