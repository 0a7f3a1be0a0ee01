use std::cmp::Ordering;

use exonum_events::{TimeoutQueue, TimeoutRequest};

fn drain(queue: &mut TimeoutQueue<u32>) -> Vec<(u64, u32)> {
    let mut out = Vec::new();
    while let Some(r) = queue.pop() {
        out.push((r.deadline, r.payload));
    }
    out
}

#[test]
fn deadlines_come_out_in_ascending_order() {
    let (t1, t2, t3) = (1_000u64, 2_000u64, 3_000u64);
    let mut q = TimeoutQueue::new();
    q.push(TimeoutRequest::new(t2, 0));
    q.push(TimeoutRequest::new(t1, 0));
    q.push(TimeoutRequest::new(t3, 0));
    assert_eq!(q.len(), 3);
    assert_eq!(drain(&mut q), vec![(t1, 0), (t2, 0), (t3, 0)]);
    assert!(q.is_empty());
}

#[test]
fn equal_deadlines_come_out_in_payload_order() {
    let t = 5_000u64;
    let (p1, p2) = (1u32, 2u32);
    let mut q = TimeoutQueue::new();
    q.push(TimeoutRequest::new(t, p2));
    q.push(TimeoutRequest::new(t, p1));
    assert_eq!(drain(&mut q), vec![(t, p1), (t, p2)]);
}

#[test]
fn mixed_requests_are_sorted_by_deadline_then_payload() {
    let mut q = TimeoutQueue::new();
    for (d, p) in [(40u64, 2u32), (10, 9), (40, 1), (0, 5), (10, 3), (40, 1), (u64::MAX, 0)] {
        q.push(TimeoutRequest::new(d, p));
    }
    assert_eq!(
        drain(&mut q),
        vec![(0, 5), (10, 3), (10, 9), (40, 1), (40, 1), (40, 2), (u64::MAX, 0)]
    );
}

#[test]
fn empty_queue_pops_nothing() {
    let mut q: TimeoutQueue<u32> = TimeoutQueue::new();
    assert!(q.is_empty());
    assert_eq!(q.len(), 0);
    assert_eq!(q.pop(), None);
    q.push(TimeoutRequest::new(7, 7));
    assert_eq!(q.pop(), Some(TimeoutRequest::new(7, 7)));
    assert_eq!(q.pop(), None);
}

#[test]
fn request_order_is_reversed_deadline_order() {
    let early = TimeoutRequest::new(10, 5u32);
    let late = TimeoutRequest::new(20, 1u32);
    assert_eq!(early.cmp(&late), Ordering::Greater);
    assert_eq!(late.cmp(&early), Ordering::Less);
}

#[test]
fn request_order_breaks_ties_by_payload() {
    let small = TimeoutRequest::new(10, 1u32);
    let big = TimeoutRequest::new(10, 2u32);
    assert_eq!(small.cmp(&big), Ordering::Greater);
    assert_eq!(big.cmp(&small), Ordering::Less);
    assert_eq!(small.cmp(&TimeoutRequest::new(10, 1u32)), Ordering::Equal);
}
