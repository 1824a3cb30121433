use inplace::{BinaryHeap, HeapError, MaxHeap, MinHeap, Order};

fn is_max_heap(v: &[i64], n: usize) -> bool {
    (1..n).all(|j| v[j] <= v[(j - 1) / 2])
}

fn is_min_heap(v: &[i64], n: usize) -> bool {
    (1..n).all(|j| v[j] >= v[(j - 1) / 2])
}

#[test]
fn round_trip_max_heap() {
    let mut buf = [3, 1, 4, 1, 5, 9, 2, 6];
    let mut heap = MaxHeap::new_with(&mut buf, 8).unwrap();
    assert_eq!(heap.size(), 8);
    assert_eq!(heap.max(), Some(9));
    let mut out = Vec::new();
    for _ in 0..8 {
        out.push(heap.extract_max().unwrap());
    }
    assert_eq!(out, vec![9, 6, 5, 4, 3, 2, 1, 1]);
    assert_eq!(heap.extract_max(), None);
    assert!(heap.empty());
}

#[test]
fn insert_only_min_heap() {
    let mut buf = [0i64; 5];
    let mut heap = MinHeap::new(&mut buf);
    for k in [5, 3, 8, 1] {
        assert_eq!(heap.insert(k), Ok(()));
    }
    assert_eq!(heap.min(), Some(1));
    assert_eq!(heap.size(), 4);
}

#[test]
fn empty_heap_peek_and_extract() {
    let mut buf = [0i64; 3];
    let mut heap = MaxHeap::new(&mut buf);
    assert_eq!(heap.max(), None);
    assert_eq!(heap.extract_max(), None);
    assert!(heap.empty());
    assert_eq!(heap.insert(42), Ok(()));
    assert_eq!(heap.max(), Some(42));
    assert!(!heap.empty());
}

#[test]
fn empty_min_heap_peek_and_extract() {
    let mut buf = [0i64; 1];
    let mut heap = MinHeap::new(&mut buf);
    assert_eq!(heap.min(), None);
    assert_eq!(heap.extract_min(), None);
    assert_eq!(heap.insert(-7), Ok(()));
    assert_eq!(heap.min(), Some(-7));
}

#[test]
fn insert_capacity_boundary() {
    let mut buf = [0i64; 3];
    let mut heap = MaxHeap::new(&mut buf);
    assert_eq!(heap.insert(1), Ok(()));
    assert_eq!(heap.insert(2), Ok(()));
    assert_eq!(heap.size(), 2);
    assert_eq!(heap.insert(3), Ok(()));
    assert_eq!(heap.size(), 3);
    assert_eq!(heap.insert(4), Err(HeapError::CapacityExceeded));
    assert_eq!(heap.size(), 3);
    assert_eq!(heap.max(), Some(3));
}

#[test]
fn insert_into_zero_capacity() {
    let mut buf: [i64; 0] = [];
    let mut heap = MinHeap::new(&mut buf);
    assert_eq!(heap.insert(1), Err(HeapError::CapacityExceeded));
    assert_eq!(heap.size(), 0);
}

#[test]
fn new_with_prefix_too_long() {
    let mut buf = [1i64, 2, 3];
    assert!(matches!(MaxHeap::new_with(&mut buf, 4), Err(HeapError::CapacityExceeded)));
    let mut buf2 = [1i64, 2, 3];
    assert!(matches!(MinHeap::new_with(&mut buf2, 4), Err(HeapError::CapacityExceeded)));
}

#[test]
fn new_with_builds_only_the_prefix() {
    let mut buf = [1i64, 2, 3, 100, 200];
    {
        let mut heap = MaxHeap::new_with(&mut buf, 3).unwrap();
        assert_eq!(heap.size(), 3);
        assert_eq!(heap.max(), Some(3));
        assert_eq!(heap.extract_max(), Some(3));
        assert_eq!(heap.extract_max(), Some(2));
        assert_eq!(heap.extract_max(), Some(1));
        assert_eq!(heap.extract_max(), None);
    }
    assert_eq!(&buf[3..], &[100, 200]);
}

#[test]
fn build_leaves_heap_order_in_buffer() {
    let mut buf = [3i64, 1, 4, 1, 5, 9, 2, 6, 5, 3];
    {
        let heap = MaxHeap::new_with(&mut buf, 10).unwrap();
        assert_eq!(heap.max(), Some(9));
    }
    assert!(is_max_heap(&buf, 10));
    let mut buf2 = [3i64, 1, 4, 1, 5, 9, 2, 6, 5, 3];
    {
        let heap = MinHeap::new_with(&mut buf2, 10).unwrap();
        assert_eq!(heap.min(), Some(1));
    }
    assert!(is_min_heap(&buf2, 10));
}

#[test]
fn min_heap_extracts_ascending() {
    let mut buf = [3i64, 1, 4, 1, 5, 9, 2, 6];
    let mut heap = MinHeap::new_with(&mut buf, 8).unwrap();
    let mut out = Vec::new();
    while let Some(x) = heap.extract_min() {
        out.push(x);
    }
    assert_eq!(out, vec![1, 1, 2, 3, 4, 5, 6, 9]);
}

#[test]
fn increase_key_directionality() {
    let mut buf = [10i64, 5, 8, 1, 2];
    let mut heap = MaxHeap::new_with(&mut buf, 5).unwrap();
    let before = heap.size();
    assert_eq!(heap.increase_key(4, 0), Err(HeapError::UpdateRejected));
    assert_eq!(heap.increase_key(9, 100), Err(HeapError::IndexOutOfRange));
    assert_eq!(heap.size(), before);
    assert_eq!(heap.increase_key(4, 20), Ok(()));
    assert_eq!(heap.max(), Some(20));
    let mut out = Vec::new();
    while let Some(x) = heap.extract_max() {
        out.push(x);
    }
    assert_eq!(out, vec![20, 10, 8, 5, 1]);
}

#[test]
fn decrease_key_directionality() {
    let mut buf = [1i64, 5, 8, 10, 20];
    let mut heap = MinHeap::new_with(&mut buf, 5).unwrap();
    assert_eq!(heap.decrease_key(0, 2), Err(HeapError::UpdateRejected));
    assert_eq!(heap.decrease_key(5, 0), Err(HeapError::IndexOutOfRange));
    assert_eq!(heap.decrease_key(4, -3), Ok(()));
    assert_eq!(heap.min(), Some(-3));
    let mut out = Vec::new();
    while let Some(x) = heap.extract_min() {
        out.push(x);
    }
    assert_eq!(out, vec![-3, 1, 5, 8, 10]);
}

#[test]
fn equal_key_update_makes_no_swap() {
    let mut buf = [9i64, 7, 8, 7, 1];
    {
        let mut heap = MaxHeap::new_with(&mut buf, 5).unwrap();
        assert_eq!(heap.increase_key(3, 7), Ok(()));
        assert_eq!(heap.increase_key(0, 9), Ok(()));
    }
    assert_eq!(buf, [9, 7, 8, 7, 1]);
    let mut buf2 = [1i64, 2, 2, 3];
    {
        let mut heap = MinHeap::new_with(&mut buf2, 4).unwrap();
        assert_eq!(heap.decrease_key(2, 2), Ok(()));
    }
    assert_eq!(buf2, [1, 2, 2, 3]);
}

#[test]
fn invariant_after_mixed_operations() {
    let mut buf = [0i64; 16];
    let size;
    {
        let mut heap = MaxHeap::new(&mut buf);
        for k in [4, 17, -2, 8, 8, 30, 0, 11] {
            heap.insert(k).unwrap();
        }
        assert_eq!(heap.extract_max(), Some(30));
        heap.increase_key(5, 50).unwrap();
        assert_eq!(heap.max(), Some(50));
        heap.insert(3).unwrap();
        assert_eq!(heap.extract_max(), Some(50));
        size = heap.size();
    }
    assert_eq!(size, 7);
    assert!(is_max_heap(&buf, size));
}

#[test]
fn engine_with_either_order() {
    let mut buf = [2i64, 7, 1, 8, 2, 8];
    {
        let mut heap = BinaryHeap::new_with(&mut buf, 6, Order::Min).unwrap();
        assert_eq!(heap.len(), 6);
        assert_eq!(heap.peek(), Some(1));
        assert_eq!(heap.update_key(0, 1), Ok(()));
        assert_eq!(heap.extract(), Some(1));
        assert_eq!(heap.extract(), Some(2));
        assert!(!heap.is_empty());
    }
    let mut buf2 = [0i64; 2];
    let mut heap = BinaryHeap::new(&mut buf2, Order::Max);
    assert!(heap.is_empty());
    assert_eq!(heap.insert(-1), Ok(()));
    assert_eq!(heap.insert(6), Ok(()));
    assert_eq!(heap.insert(7), Err(HeapError::CapacityExceeded));
    assert_eq!(heap.update_key(1, -5), Err(HeapError::UpdateRejected));
    assert_eq!(heap.update_key(2, 9), Err(HeapError::IndexOutOfRange));
    assert_eq!(heap.peek(), Some(6));
}

#[test]
fn order_precedes_is_strict() {
    assert!(Order::Max.precedes(5, 3));
    assert!(!Order::Max.precedes(3, 3));
    assert!(!Order::Max.precedes(3, 5));
    assert!(Order::Min.precedes(3, 5));
    assert!(!Order::Min.precedes(5, 5));
    assert!(!Order::Min.precedes(5, 3));
}

#[test]
fn build_on_existing_heap_keeps_contents() {
    let mut buf = [5i64, 9, 1];
    let mut heap = BinaryHeap::new_with(&mut buf, 3, Order::Max).unwrap();
    heap.build();
    assert_eq!(heap.len(), 3);
    assert_eq!(heap.extract(), Some(9));
    assert_eq!(heap.extract(), Some(5));
    assert_eq!(heap.extract(), Some(1));
}
