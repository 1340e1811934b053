//! The segment queue's push/pop/close/len behaviour, including the block
//! boundaries at 31, 32 and 63 elements.

use yage_runtime::queue::ConcurrentQueue;
use yage_runtime::queue::PopError;
use yage_runtime::queue::PushError;
use yage_runtime::queue::Unbounded;

fn push_then_pop_all(n: u64) {
    let mut q: Unbounded<u64> = Unbounded::new();
    for v in 0..n {
        assert!(q.push(v).is_ok());
    }
    assert_eq!(q.len(), n as usize);
    for v in 0..n {
        assert_eq!(q.pop(), Ok(v));
    }
    assert_eq!(q.pop(), Err(PopError::Empty));
}

#[test]
fn test_fifo_order() {
    let mut q: Unbounded<u32> = Unbounded::new();
    let values = [3u32, 1, 4, 1, 5, 9, 2, 6];
    for v in values {
        assert!(q.push(v).is_ok());
    }
    for v in values {
        assert_eq!(q.pop(), Ok(v));
    }
    assert!(q.is_empty());
}

#[test]
fn test_multi_producer_exactly_once() {
    // Three producers with distinct tagged values, interleaved arbitrarily:
    // every value comes out exactly once, none is lost or duplicated.
    let mut q: Unbounded<(u8, u32)> = Unbounded::new();
    let producer_a = [(1u8, 10u32), (1, 11), (1, 12)];
    let producer_b = [(2u8, 20u32), (2, 21), (2, 22)];
    let producer_c = [(3u8, 30u32), (3, 31), (3, 32)];
    let interleaving = [
        producer_a[0],
        producer_b[0],
        producer_b[1],
        producer_c[0],
        producer_a[1],
        producer_c[1],
        producer_c[2],
        producer_a[2],
        producer_b[2],
    ];
    for v in interleaving {
        assert!(q.push(v).is_ok());
    }
    let mut seen: Vec<(u8, u32)> = Vec::new();
    while let Ok(v) = q.pop() {
        seen.push(v);
    }
    assert_eq!(seen.len(), 9);
    for v in interleaving {
        assert_eq!(seen.iter().filter(|s| **s == v).count(), 1);
    }
}

#[test]
fn test_close_semantics() {
    let mut q: Unbounded<u32> = Unbounded::new();
    assert!(q.push(1).is_ok());
    assert!(q.push(2).is_ok());
    assert!(!q.is_closed());
    assert!(q.close());
    assert!(q.is_closed());
    // A second close reports that the queue was already closed.
    assert!(!q.close());
    // Pushes now fail with Closed and hand the value back.
    match q.push(3) {
        Err(PushError::Closed(v)) => assert_eq!(v, 3),
        _ => panic!("push into a closed queue must fail with Closed"),
    }
    // Pops drain the pending values, then report Closed, not Empty.
    assert_eq!(q.pop(), Ok(1));
    assert_eq!(q.pop(), Ok(2));
    assert_eq!(q.pop(), Err(PopError::Closed));
    assert_eq!(q.pop(), Err(PopError::Closed));
}

#[test]
fn test_len_after_close() {
    let mut q: Unbounded<u32> = Unbounded::new();
    for v in 0..40 {
        assert!(q.push(v).is_ok());
    }
    for _ in 0..15 {
        assert!(q.pop().is_ok());
    }
    assert!(q.close());
    // With no concurrent activity, len equals pushes minus pops.
    assert_eq!(q.len(), 40 - 15);
}

#[test]
fn test_block_boundary_31() {
    push_then_pop_all(31);
}

#[test]
fn test_block_boundary_32() {
    push_then_pop_all(32);
}

#[test]
fn test_block_boundary_63() {
    push_then_pop_all(63);
}

#[test]
fn test_pop_empty() {
    let mut q: Unbounded<String> = Unbounded::new();
    assert!(q.is_empty());
    assert_eq!(q.len(), 0);
    assert_eq!(q.pop(), Err(PopError::Empty));
}

#[test]
fn test_interleaved_push_pop_across_blocks() {
    let mut q: Unbounded<u64> = Unbounded::new();
    let mut expected: u64 = 0;
    let mut next: u64 = 0;
    for round in 0..10 {
        for _ in 0..(7 + round) {
            assert!(q.push(next).is_ok());
            next += 1;
        }
        for _ in 0..5 {
            assert_eq!(q.pop(), Ok(expected));
            expected += 1;
        }
    }
    while let Ok(v) = q.pop() {
        assert_eq!(v, expected);
        expected += 1;
    }
    assert_eq!(expected, next);
}

#[test]
fn test_concurrent_queue_wrapper() {
    let mut q: ConcurrentQueue<u32> = ConcurrentQueue::unbounded();
    assert!(q.push(5).is_ok());
    assert!(q.push(6).is_ok());
    assert_eq!(q.pop(), Ok(5));
    assert_eq!(q.pop(), Ok(6));
    assert_eq!(q.pop(), Err(PopError::Empty));
    assert!(q.has_headroom());
}
