use psila_stack::ring::{RingBuffer, RingError};

#[test]
fn grant_commit_read_release() {
    let mut ring = RingBuffer::new(8);
    assert_eq!(ring.len(), 0);
    ring.grant(4).unwrap();
    ring.commit(&[1, 2, 3]);
    assert_eq!(ring.len(), 3);
    let bytes = ring.read().unwrap();
    assert_eq!(bytes, vec![1, 2, 3]);
    ring.release(2);
    assert_eq!(ring.len(), 1);
    let bytes = ring.read().unwrap();
    assert_eq!(bytes, vec![3]);
    ring.release(1);
    assert_eq!(ring.len(), 0);
}

#[test]
fn single_outstanding_grants() {
    let mut ring = RingBuffer::new(8);
    ring.grant(2).unwrap();
    assert_eq!(ring.grant(1), Err(RingError::GrantInProgress));
    ring.commit(&[9, 8]);
    let _ = ring.read().unwrap();
    assert_eq!(ring.read(), Err(RingError::GrantInProgress));
    ring.release(2);
}

#[test]
fn grant_never_blocks_when_full() {
    let mut ring = RingBuffer::new(4);
    ring.grant(4).unwrap();
    ring.commit(&[1, 2, 3, 4]);
    // The ring is full: a producer gets an error, never a wait.
    assert_eq!(ring.grant(1), Err(RingError::InsufficientSize));
    // Draining frees the room again.
    let _ = ring.read().unwrap();
    ring.release(4);
    assert!(ring.grant(3).is_ok());
}

#[test]
fn oversized_grant_is_refused() {
    let mut ring = RingBuffer::new(8);
    assert_eq!(ring.grant(9), Err(RingError::InsufficientSize));
    assert!(ring.grant(8).is_ok());
}

#[test]
fn read_of_empty_ring_is_refused() {
    let mut ring = RingBuffer::new(8);
    assert_eq!(ring.read(), Err(RingError::InsufficientSize));
}

#[test]
fn wrap_around_keeps_order_and_counts() {
    // Committed bytes come out in order across the wrap, each exactly once,
    // and everything committed is eventually released.
    let mut ring = RingBuffer::new(8);
    let mut committed: usize = 0;
    let mut released: usize = 0;
    let mut drained: Vec<u8> = Vec::new();

    ring.grant(5).unwrap();
    ring.commit(&[1, 2, 3, 4, 5]);
    committed += 5;
    let bytes = ring.read().unwrap();
    ring.release(bytes.len());
    released += bytes.len();
    drained.extend_from_slice(&bytes);

    // Tail room is three bytes; a grant of four wraps to the front.
    ring.grant(4).unwrap();
    ring.commit(&[6, 7, 8, 9]);
    committed += 4;
    // Drain across the wrap: the reader may need two grants.
    while ring.len() > 0 {
        let bytes = ring.read().unwrap();
        ring.release(bytes.len());
        released += bytes.len();
        drained.extend_from_slice(&bytes);
    }
    assert_eq!(committed, released);
    assert_eq!(drained, vec![1, 2, 3, 4, 5, 6, 7, 8, 9]);
}

#[test]
fn short_commit_and_short_release() {
    let mut ring = RingBuffer::new(8);
    ring.grant(6).unwrap();
    // A commit may use less than the grant.
    ring.commit(&[0xAA, 0xBB]);
    assert_eq!(ring.len(), 2);
    let bytes = ring.read().unwrap();
    assert_eq!(bytes, vec![0xAA, 0xBB]);
    // A release may return less than was read; the rest stays queued.
    ring.release(1);
    assert_eq!(ring.len(), 1);
    let bytes = ring.read().unwrap();
    assert_eq!(bytes, vec![0xBB]);
    ring.release(1);
}

#[test]
fn interleaved_producer_consumer() {
    // Interleave producer and consumer steps; every byte is read exactly
    // once, in commit order.
    let mut ring = RingBuffer::new(16);
    let mut next: u8 = 0;
    let mut expected: u8 = 0;
    for round in 0..50usize {
        let n = (round % 5) + 1;
        if ring.grant(n).is_ok() {
            let data: Vec<u8> = (0..n)
                .map(|i| {
                    let v = next.wrapping_add(i as u8);
                    v
                })
                .collect();
            next = next.wrapping_add(n as u8);
            ring.commit(&data);
        }
        if round % 2 == 0 {
            if let Ok(bytes) = ring.read() {
                for b in bytes.iter() {
                    assert_eq!(*b, expected);
                    expected = expected.wrapping_add(1);
                }
                ring.release(bytes.len());
            }
        }
    }
    while ring.len() > 0 {
        let bytes = ring.read().unwrap();
        for b in bytes.iter() {
            assert_eq!(*b, expected);
            expected = expected.wrapping_add(1);
        }
        ring.release(bytes.len());
    }
    // Everything committed was drained: the counters meet.
    assert_eq!(expected, next);
}
