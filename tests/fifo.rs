use discoid::{absolute_index, BufferError, CircularBuffer};

#[test]
fn absolute_index_wraps() {
    assert_eq!(absolute_index(0, 0, 5), 0);
    assert_eq!(absolute_index(3, 1, 5), 4);
    assert_eq!(absolute_index(3, 2, 5), 0);
    assert_eq!(absolute_index(4, 4, 5), 3);
    assert_eq!(absolute_index(2, 5, 5), 2);
    assert_eq!(absolute_index(usize::MAX - 1, 1, usize::MAX), 0);
    assert_eq!(absolute_index(7, 12, 5), 4);
    assert_eq!(absolute_index(usize::MAX, usize::MAX, 10), 0);
}

#[test]
fn queue_rejects_zero_capacity() {
    assert!(matches!(
        CircularBuffer::<u8>::new(0),
        Err(BufferError::ZeroCapacity)
    ));
}

#[test]
fn pops_come_out_in_push_order() {
    let mut cb = CircularBuffer::new(5).unwrap();
    cb.push(1).unwrap();
    cb.push(2).unwrap();
    cb.push(3).unwrap();
    assert_eq!(cb.pop(), Some(1));
    assert_eq!(cb.pop(), Some(2));
    assert_eq!(cb.pop(), Some(3));
}

#[test]
fn interleaved_pushes_and_pops_keep_order() {
    let mut cb = CircularBuffer::new(2).unwrap();
    let mut out = Vec::new();
    for v in 0..10 {
        cb.push(v).unwrap();
        if v % 2 == 1 {
            out.push(cb.pop().unwrap());
            out.push(cb.pop().unwrap());
        }
    }
    assert_eq!(out, (0..10).collect::<Vec<_>>());
}

#[test]
fn absence_is_repeatable_and_changes_nothing() {
    let mut cb = CircularBuffer::new(3).unwrap();
    cb.push(7).unwrap();
    for _ in 0..4 {
        assert_eq!(cb.get(1), None);
        assert_eq!(cb.get(5), None);
    }
    assert_eq!(cb.pop(), Some(7));
    for _ in 0..4 {
        assert_eq!(cb.pop(), None);
        assert_eq!(cb.get(0), None);
        assert_eq!(cb.len(), 0);
    }
    cb.push(8).unwrap();
    assert_eq!(cb.get(0), Some(&8));
}

#[test]
fn full_queue_refuses_then_accepts_after_pop() {
    let mut cb = CircularBuffer::new(3).unwrap();
    for v in 0..3 {
        assert_eq!(cb.push(v), Ok(()));
    }
    assert!(cb.is_full());
    assert_eq!(cb.len(), 3);
    assert_eq!(cb.push(9), Err(BufferError::BufferFull));
    assert_eq!(cb.len(), 3);
    assert_eq!(cb.pop(), Some(0));
    assert_eq!(cb.push(9), Ok(()));
    assert!(cb.is_full());
    assert_eq!(cb.into_iter().collect(), vec![1, 2, 9]);
}

#[test]
fn try_push_hands_back_refused_value() {
    let mut cb = CircularBuffer::new(1).unwrap();
    assert_eq!(cb.try_push(String::from("kept")), Ok(()));
    assert_eq!(cb.try_push(String::from("refused")), Err(String::from("refused")));
    assert_eq!(cb.get(0), Some(&String::from("kept")));
}

#[test]
fn wraparound_keeps_fifo_order() {
    let mut cb = CircularBuffer::new(3).unwrap();
    cb.push(1).unwrap();
    cb.push(2).unwrap();
    cb.push(3).unwrap();
    assert_eq!(cb.pop(), Some(1));
    assert_eq!(cb.pop(), Some(2));
    cb.push(4).unwrap();
    cb.push(5).unwrap();
    assert_eq!(cb.get(0), Some(&3));
    assert_eq!(cb.get(2), Some(&5));
    assert_eq!(cb.into_iter().collect(), vec![3, 4, 5]);
}

#[test]
fn remove_multiple_past_length_empties_queue() {
    let mut cb = CircularBuffer::new(4).unwrap();
    cb.push(1).unwrap();
    cb.push(2).unwrap();
    cb.push(3).unwrap();
    cb.remove_multiple(10);
    assert_eq!(cb.len(), 0);
    assert!(cb.is_empty());
    assert_eq!(cb.pop(), None);
    cb.push(4).unwrap();
    assert_eq!(cb.pop(), Some(4));
}

#[test]
fn remove_multiple_zero_and_exact() {
    let mut cb = CircularBuffer::new(4).unwrap();
    cb.push(1).unwrap();
    cb.push(2).unwrap();
    cb.remove_multiple(0);
    assert_eq!(cb.len(), 2);
    cb.remove_multiple(2);
    assert!(cb.is_empty());
    cb.remove_multiple(1);
    assert!(cb.is_empty());
}

#[test]
fn drained_queue_iterates_nothing() {
    let mut cb = CircularBuffer::new(3).unwrap();
    cb.push('x').unwrap();
    cb.push('y').unwrap();
    cb.remove_multiple(2);
    let mut iter = cb.into_iter();
    assert_eq!(iter.next(), None);
    assert_eq!(iter.next(), None);
}

#[test]
fn full_queue_iterates_capacity_elements() {
    let mut cb = CircularBuffer::new(4).unwrap();
    cb.push(0).unwrap();
    cb.pop().unwrap();
    for v in 10..14 {
        cb.push(v).unwrap();
    }
    let mut iter = cb.into_iter();
    assert_eq!(iter.next(), Some(10));
    assert_eq!(iter.collect(), vec![11, 12, 13]);
}

#[test]
fn error_messages_name_the_failure() {
    assert_eq!(
        BufferError::BufferFull.message(),
        "circular buffer: cannot push, buffer is full"
    );
    assert_eq!(
        BufferError::IndexOutOfBounds.message(),
        "discoid buffer: index out of bounds"
    );
    assert_eq!(
        BufferError::DiscardTooMany.message(),
        "discoid buffer: discarding too much"
    );
    assert_ne!(
        BufferError::ZeroCapacity.message(),
        BufferError::CapacityTooLarge.message()
    );
}
