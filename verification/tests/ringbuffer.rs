use ringbuffer::{
    masked_slot, AllocRingBuffer, ReadableRingbuffer, RingBuffer, RingBufferIterator,
    RingBufferMutIterator, RingBufferExt, WritableRingbuffer, ALLOC_RINGBUFFER_DEFAULT_CAPACITY,
};

#[test]
fn bounded_push_rejects_when_full() {
    let mut buffer: AllocRingBuffer<i32> = AllocRingBuffer::with_capacity(2);
    assert_eq!(buffer.push(1), Ok(()));
    assert_eq!(buffer.push(2), Ok(()));
    assert_eq!(buffer.push(3), Err(3));
    assert_eq!(buffer.to_vec(), vec![1, 2]);
}

#[test]
fn overwrite_push_drops_oldest() {
    let mut buffer: AllocRingBuffer<i32> = AllocRingBuffer::with_capacity(2);
    assert_eq!(buffer.push(1), Ok(()));
    assert_eq!(buffer.push(2), Ok(()));
    buffer.push_force(3);
    assert_eq!(buffer.to_vec(), vec![2, 3]);
    assert_eq!(buffer.front(), Some(&3));
    assert_eq!(buffer.back(), Some(&2));
}

#[test]
fn pop_returns_oldest_then_none() {
    let mut buffer: AllocRingBuffer<i32> = AllocRingBuffer::with_capacity(2);
    assert_eq!(buffer.push(1), Ok(()));
    assert_eq!(buffer.pop(), Some(1));
    assert_eq!(buffer.pop(), None);
    assert!(buffer.is_empty());
}

#[test]
fn capacity_one_fills_and_rejects() {
    let mut buffer: AllocRingBuffer<i32> = AllocRingBuffer::with_capacity(1);
    assert_eq!(buffer.push(1), Ok(()));
    assert!(buffer.is_full());
    assert_eq!(buffer.push(2), Err(2));
    assert_eq!(buffer.len(), 1);
}

#[test]
fn fifo_order_within_capacity() {
    let mut buffer: AllocRingBuffer<i32> = AllocRingBuffer::with_capacity(5);
    for i in 1..=4 {
        assert_eq!(buffer.push(i), Ok(()));
        assert_eq!(buffer.len(), i as usize);
    }
    for i in 1..=4 {
        assert_eq!(buffer.pop(), Some(i));
    }
    assert_eq!(buffer.pop(), None);
}

#[test]
fn full_and_empty_flags_track_length() {
    let mut buffer: AllocRingBuffer<i32> = AllocRingBuffer::with_capacity(2);
    assert!(buffer.is_empty());
    assert!(!buffer.is_full());
    assert_eq!(buffer.push(1), Ok(()));
    assert!(!buffer.is_empty());
    assert!(!buffer.is_full());
    assert_eq!(buffer.push(2), Ok(()));
    assert!(!buffer.is_empty());
    assert!(buffer.is_full());
    assert_eq!(buffer.pop(), Some(1));
    assert!(!buffer.is_full());
    assert_eq!(buffer.len(), 1);
}

#[test]
fn clear_on_empty_is_idempotent() {
    let mut buffer: AllocRingBuffer<i32> = AllocRingBuffer::with_capacity(3);
    buffer.clear();
    assert_eq!(buffer.len(), 0);
    assert_eq!(buffer.capacity(), 3);
    buffer.clear();
    assert_eq!(buffer.len(), 0);
    assert_eq!(buffer.capacity(), 3);
}

#[test]
fn clear_drops_contents_keeps_capacity() {
    let mut buffer: AllocRingBuffer<i32> = AllocRingBuffer::with_capacity(2);
    assert_eq!(buffer.push(7), Ok(()));
    buffer.clear();
    assert!(buffer.is_empty());
    assert_eq!(buffer.capacity(), 2);
    assert_eq!(buffer.push(8), Ok(()));
    assert_eq!(buffer.pop(), Some(8));
}

#[test]
fn overwrite_law_keeps_last_capacity_items() {
    let mut buffer: AllocRingBuffer<i32> = AllocRingBuffer::with_capacity(3);
    for i in 1..=7 {
        buffer.push_force(i);
    }
    assert_eq!(buffer.len(), 3);
    assert_eq!(buffer.to_vec(), vec![5, 6, 7]);
}

#[test]
fn round_trip_through_owned_sequence() {
    let mut buffer: AllocRingBuffer<i32> = AllocRingBuffer::with_capacity(4);
    assert_eq!(buffer.push(9), Ok(()));
    assert_eq!(buffer.push(8), Ok(()));
    assert_eq!(buffer.push(7), Ok(()));
    let owned = buffer.to_vec();
    let rebuilt = AllocRingBuffer::from_vec(4, owned);
    assert_eq!(rebuilt.to_vec(), buffer.to_vec());
}

#[test]
fn round_trip_after_wrap() {
    let mut buffer: AllocRingBuffer<i32> = AllocRingBuffer::with_capacity(2);
    for i in 0..9 {
        buffer.push_force(i);
    }
    let owned = buffer.to_vec();
    assert_eq!(owned, vec![7, 8]);
    let rebuilt = AllocRingBuffer::from_vec(2, owned);
    assert_eq!(rebuilt.to_vec(), vec![7, 8]);
}

#[test]
fn get_at_length_and_beyond_is_absent() {
    let mut buffer: AllocRingBuffer<i32> = AllocRingBuffer::with_capacity(2);
    assert_eq!(buffer.get(0), None);
    assert_eq!(buffer.get(5), None);
    assert_eq!(buffer.push(1), Ok(()));
    assert_eq!(buffer.get(1), None);
    assert_eq!(buffer.push(2), Ok(()));
    buffer.push_force(3);
    assert_eq!(buffer.get(2), None);
    assert_eq!(buffer.get(usize::MAX), None);
}

#[test]
fn indexed_access_is_relative_to_read_end() {
    let mut buffer: AllocRingBuffer<i32> = AllocRingBuffer::with_capacity(2);
    assert_eq!(buffer.push(1), Ok(()));
    assert_eq!(buffer.push(2), Ok(()));
    assert_eq!(buffer.pop(), Some(1));
    assert_eq!(buffer.push(3), Ok(()));
    assert_eq!(buffer.get(0), Some(&2));
    assert_eq!(buffer.get(1), Some(&3));
    assert_eq!(*buffer.idx(0), 2);
    assert_eq!(*buffer.idx(1), 3);
    assert_eq!(buffer.front(), Some(&3));
    assert_eq!(buffer.back(), Some(&2));
}

#[test]
fn wrapping_many_cycles_preserves_order() {
    let mut buffer: AllocRingBuffer<i32> = AllocRingBuffer::with_capacity(3);
    for round in 0..10 {
        assert_eq!(buffer.push(3 * round), Ok(()));
        assert_eq!(buffer.push(3 * round + 1), Ok(()));
        assert_eq!(buffer.push(3 * round + 2), Ok(()));
        assert_eq!(buffer.pop(), Some(3 * round));
        assert_eq!(buffer.pop(), Some(3 * round + 1));
        assert_eq!(buffer.pop(), Some(3 * round + 2));
    }
    assert!(buffer.is_empty());
}

#[test]
fn skip_discards_oldest_and_is_noop_when_empty() {
    let mut buffer: AllocRingBuffer<i32> = AllocRingBuffer::with_capacity(2);
    assert_eq!(buffer.push(1), Ok(()));
    buffer.skip();
    assert!(buffer.is_empty());
    buffer.skip();
    assert!(buffer.is_empty());
    assert_eq!(buffer.capacity(), 2);
}

#[test]
fn mutable_access_writes_through() {
    let mut buffer: AllocRingBuffer<i32> = AllocRingBuffer::with_capacity(3);
    assert_eq!(buffer.push(10), Ok(()));
    assert_eq!(buffer.push(20), Ok(()));
    assert_eq!(buffer.push(30), Ok(()));
    if let Some(m) = buffer.get_mut(1) {
        *m = 99;
    }
    assert_eq!(buffer.to_vec(), vec![10, 99, 30]);
    assert_eq!(buffer.get_mut(3), None);
    if let Some(m) = buffer.front_mut() {
        *m = 31;
    }
    if let Some(m) = buffer.back_mut() {
        *m = 11;
    }
    assert_eq!(buffer.to_vec(), vec![11, 99, 31]);
}

#[test]
fn mut_access_absent_when_empty() {
    let mut buffer: AllocRingBuffer<i32> = AllocRingBuffer::with_capacity(2);
    assert!(buffer.front_mut().is_none());
    assert!(buffer.back_mut().is_none());
    assert!(buffer.get_mut(0).is_none());
}

#[test]
fn contains_scans_live_elements() {
    let mut buffer: AllocRingBuffer<i32> = AllocRingBuffer::with_capacity(2);
    assert_eq!(buffer.push(1), Ok(()));
    assert!(buffer.contains(&1));
    assert!(!buffer.contains(&2));
    assert_eq!(buffer.push(2), Ok(()));
    buffer.push_force(3);
    assert!(!buffer.contains(&1));
    assert!(buffer.contains(&2));
    assert!(buffer.contains(&3));
}

#[test]
fn iterator_walks_back_to_front() {
    let mut buffer: AllocRingBuffer<i32> = AllocRingBuffer::with_capacity(2);
    assert_eq!(buffer.push(1), Ok(()));
    assert_eq!(buffer.push(2), Ok(()));
    let mut it = buffer.iter();
    assert_eq!(it.next(), Some(&1));
    assert_eq!(it.next(), Some(&2));
    assert_eq!(it.next(), None);
    assert_eq!(it.next(), None);
    let mut again = RingBufferIterator::new(&buffer);
    assert_eq!(again.next(), Some(&1));
}

#[test]
fn mut_iterator_rewrites_each_element() {
    let mut buffer: AllocRingBuffer<i32> = AllocRingBuffer::with_capacity(3);
    assert_eq!(buffer.push(1), Ok(()));
    assert_eq!(buffer.push(2), Ok(()));
    assert_eq!(buffer.push(3), Ok(()));
    let mut it = RingBufferMutIterator::new();
    while let Some(m) = it.next(&mut buffer) {
        *m *= 2;
    }
    assert_eq!(buffer.to_vec(), vec![2, 4, 6]);
    assert!(it.next(&mut buffer).is_none());
}

#[test]
fn from_vec_rejects_past_capacity() {
    let buffer: AllocRingBuffer<i32> = AllocRingBuffer::from_vec(2, vec![1, 2, 3]);
    assert_eq!(buffer.to_vec(), vec![1, 2]);
    assert_eq!(buffer.capacity(), 2);
    let exact: AllocRingBuffer<i32> = AllocRingBuffer::from_vec(3, vec![4, 5, 6]);
    assert_eq!(exact.to_vec(), vec![4, 5, 6]);
}

#[test]
fn default_is_empty_at_default_capacity() {
    let buffer: AllocRingBuffer<i32> = Default::default();
    assert!(buffer.is_empty());
    assert_eq!(buffer.capacity(), ALLOC_RINGBUFFER_DEFAULT_CAPACITY);
}

#[test]
fn push_value_surrenders_the_element() {
    let v: i32 = <i32 as ringbuffer::PushValue<i32>>::get(5);
    assert_eq!(v, 5);
}

#[test]
fn masking_reduces_positions_into_range() {
    assert_eq!(masked_slot(0, 4), 0);
    assert_eq!(masked_slot(7, 4), 3);
    assert_eq!(masked_slot(8, 4), 0);
    assert_eq!(masked_slot(9, 3), 0);
    for pos in 0..20usize {
        assert!(masked_slot(pos, 5) < 5);
    }
}
