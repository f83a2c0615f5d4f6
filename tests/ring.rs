use shm_ring::header::{next_index, RingBufferHeader};
use shm_ring::layout::SegmentLayout;
use shm_ring::ring::RingBuffer;

#[test]
fn create_ten_push_pop_scenario() {
    let mut rb: RingBuffer<u32> = RingBuffer::new(10);
    for i in 0..9u32 {
        assert_eq!(rb.push(i), Ok(()));
    }
    // The tenth value still fits: ten usable slots beside the sentinel.
    assert_eq!(rb.push(9), Ok(()));
    assert_eq!(rb.push(10), Err(10));
    for i in 0..10u32 {
        assert_eq!(rb.pop(), Some(i));
    }
    assert_eq!(rb.pop(), None);
}

#[test]
fn fresh_ring_is_empty_and_takes_exactly_capacity() {
    for c in 1..6usize {
        let mut rb: RingBuffer<usize> = RingBuffer::new(c);
        assert!(rb.is_empty());
        assert_eq!(rb.pop(), None);
        for i in 0..c {
            assert_eq!(rb.push(i), Ok(()));
        }
        assert!(rb.is_full());
        assert_eq!(rb.len(), c);
        assert_eq!(rb.push(99), Err(99));
    }
}

#[test]
fn capacity_one_ring() {
    let mut rb: RingBuffer<u8> = RingBuffer::new(1);
    assert_eq!(rb.capacity(), 1);
    assert_eq!(rb.push(7), Ok(()));
    assert_eq!(rb.push(8), Err(8));
    assert_eq!(rb.pop(), Some(7));
    assert_eq!(rb.pop(), None);
}

#[test]
fn capacity_zero_ring_refuses_everything() {
    let mut rb: RingBuffer<u8> = RingBuffer::new(0);
    assert!(rb.is_empty());
    assert!(rb.is_full());
    assert_eq!(rb.push(1), Err(1));
    assert_eq!(rb.pop(), None);
}

#[test]
fn round_trip_keeps_order() {
    let values = vec![5i64, -3, 12, 0, 44];
    let mut rb: RingBuffer<i64> = RingBuffer::new(7);
    for v in &values {
        assert_eq!(rb.push(*v), Ok(()));
    }
    let mut out = Vec::new();
    for _ in 0..values.len() {
        out.push(rb.pop().unwrap());
    }
    assert_eq!(out, values);
    assert!(rb.is_empty());
}

#[test]
fn round_trip_of_owned_values() {
    let mut rb: RingBuffer<String> = RingBuffer::new(2);
    assert_eq!(rb.push("a".to_string()), Ok(()));
    assert_eq!(rb.push("b".to_string()), Ok(()));
    assert_eq!(rb.push("c".to_string()), Err("c".to_string()));
    assert_eq!(rb.pop(), Some("a".to_string()));
    assert_eq!(rb.pop(), Some("b".to_string()));
    assert_eq!(rb.pop(), None);
}

#[test]
fn wraparound_after_many_pairs() {
    let c = 4usize;
    for k in 0..4usize {
        let mut rb: RingBuffer<usize> = RingBuffer::new(c);
        for i in 0..k * c {
            assert_eq!(rb.push(i), Ok(()));
            assert_eq!(rb.pop(), Some(i));
        }
        assert!(rb.is_empty());
        assert_eq!(rb.push(1000), Ok(()));
        assert_eq!(rb.pop(), Some(1000));
    }
}

#[test]
fn interleaved_pushes_and_pops_keep_fifo() {
    let mut rb: RingBuffer<u32> = RingBuffer::new(3);
    let mut pushed = Vec::new();
    let mut popped = Vec::new();
    let mut next = 0u32;
    for round in 0..50u32 {
        for _ in 0..(round % 3 + 1) {
            if rb.push(next).is_ok() {
                pushed.push(next);
            }
            next += 1;
        }
        for _ in 0..(round % 2 + 1) {
            if let Some(v) = rb.pop() {
                popped.push(v);
            }
        }
        assert!(popped.len() <= pushed.len());
        assert_eq!(popped[..], pushed[..popped.len()]);
    }
}

#[test]
fn header_steps_wrap_indices() {
    let h = RingBufferHeader::new(3);
    assert!(h.is_empty());
    assert_eq!(h.len(), 0);
    let h = h.push_step().unwrap();
    assert_eq!((h.head, h.tail), (0, 1));
    let h = h.push_step().unwrap();
    assert_eq!((h.head, h.tail), (0, 2));
    assert!(h.is_full());
    assert_eq!(h.push_step(), None);
    let h = h.pop_step().unwrap();
    assert_eq!((h.head, h.tail), (1, 2));
    let h = h.push_step().unwrap();
    assert_eq!((h.head, h.tail), (1, 0));
    assert_eq!(h.len(), 2);
    let h = h.pop_step().unwrap().pop_step().unwrap();
    assert_eq!((h.head, h.tail), (0, 0));
    assert_eq!(h.pop_step(), None);
}

#[test]
fn next_index_wraps_at_capacity() {
    assert_eq!(next_index(0, 11), 1);
    assert_eq!(next_index(9, 11), 10);
    assert_eq!(next_index(10, 11), 0);
    assert_eq!(next_index(usize::MAX - 1, usize::MAX), 0);
}

#[test]
fn header_from_parts_checks_bounds() {
    let h = RingBufferHeader::from_parts(2, 5, 11).unwrap();
    assert_eq!(h.len(), 3);
    let w = RingBufferHeader::from_parts(9, 1, 11).unwrap();
    assert_eq!(w.len(), 3);
    assert_eq!(RingBufferHeader::from_parts(11, 0, 11), None);
    assert_eq!(RingBufferHeader::from_parts(0, 11, 11), None);
    assert_eq!(RingBufferHeader::from_parts(0, 0, 0), None);
}

#[test]
fn layout_for_ten_u32_records() {
    let l = SegmentLayout::for_request(10, 24, 4).unwrap();
    assert_eq!(l.capacity, 11);
    assert_eq!(l.total_size(), 24 + 11 * 4);
    assert_eq!(l.slot_offset(0), 24);
    assert_eq!(l.slot_offset(10), 64);
}

#[test]
fn layout_refuses_overflowing_sizes() {
    assert_eq!(SegmentLayout::for_request(usize::MAX, 24, 4), None);
    assert_eq!(SegmentLayout::for_request(usize::MAX / 2, 24, 4), None);
    assert_eq!(SegmentLayout::for_request(10, usize::MAX - 10, 1), None);
    let l = SegmentLayout::for_request(10, usize::MAX - 11, 1).unwrap();
    assert_eq!(l.total_size(), usize::MAX);
}

#[test]
fn layout_with_zero_sized_records() {
    let l = SegmentLayout::for_request(5, 24, 0).unwrap();
    assert_eq!(l.total_size(), 24);
    assert_eq!(l.slot_offset(5), 24);
}
