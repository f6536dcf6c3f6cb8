//! Ring proxy staging, backlog FIFO/no-loss, and admission control.

use http_server_iouring_rev::ops::{OpDesc, Token};
use http_server_iouring_rev::ring::{submit_retryable, RingProxy};
use http_server_iouring_rev::slots::ConnectionSlots;

fn tok(idx: u32) -> Token {
    Token { idx, gen: 0 }
}

fn poll_op(fd: i32) -> OpDesc {
    OpDesc::PollAdd { fd, token: tok(fd as u32) }
}

#[test]
fn push_within_capacity_stages() {
    let mut proxy = RingProxy::new(4, 8);
    proxy.push_sqe(poll_op(1));
    proxy.push_sqe(poll_op(2));
    assert_eq!(proxy.sq, vec![poll_op(1), poll_op(2)]);
    assert!(proxy.backlog.is_empty());
}

#[test]
fn backlog_divert_fifo_and_no_loss() {
    let mut proxy = RingProxy::new(4, 8);
    for fd in 0..4 {
        proxy.push_sqe(poll_op(fd));
    }
    // The staging area is full: the next three are diverted, in order.
    for fd in 100..103 {
        proxy.push_sqe(poll_op(fd));
    }
    assert_eq!(proxy.sq.len(), 4);
    assert_eq!(proxy.backlog, vec![poll_op(100), poll_op(101), poll_op(102)]);

    // Submitting frees capacity; the drain stages the whole backlog in
    // its original order and none of it is lost.
    let submitted = proxy.take_staged();
    assert_eq!(submitted, vec![poll_op(0), poll_op(1), poll_op(2), poll_op(3)]);
    proxy.sched_backlog();
    assert_eq!(proxy.sq, vec![poll_op(100), poll_op(101), poll_op(102)]);
    assert!(proxy.backlog.is_empty());
}

#[test]
fn backlog_drains_in_order_across_rounds() {
    let mut proxy = RingProxy::new(2, 8);
    proxy.push_sqe(poll_op(0));
    proxy.push_sqe(poll_op(1));
    for fd in 10..15 {
        proxy.push_sqe(poll_op(fd));
    }
    assert_eq!(proxy.backlog.len(), 5);

    let mut submitted: Vec<OpDesc> = Vec::new();
    while !proxy.sq.is_empty() || !proxy.backlog.is_empty() {
        submitted.extend(proxy.take_staged());
        proxy.sched_backlog();
    }
    assert_eq!(
        submitted,
        vec![
            poll_op(0),
            poll_op(1),
            poll_op(10),
            poll_op(11),
            poll_op(12),
            poll_op(13),
            poll_op(14),
        ]
    );
}

#[test]
fn sched_backlog_stops_when_staging_full() {
    let mut proxy = RingProxy::new(2, 8);
    for fd in 0..5 {
        proxy.push_sqe(poll_op(fd));
    }
    proxy.sched_backlog();
    // No room at all: nothing moved, nothing lost.
    assert_eq!(proxy.sq, vec![poll_op(0), poll_op(1)]);
    assert_eq!(proxy.backlog, vec![poll_op(2), poll_op(3), poll_op(4)]);
}

#[test]
fn push_many_is_all_or_nothing() {
    let mut proxy = RingProxy::new(4, 8);
    proxy.push_sqe(poll_op(0));
    proxy.push_sqe(poll_op(1));
    proxy.push_sqe(poll_op(2));
    let batch = vec![poll_op(50), poll_op(51)];
    proxy.push_multiple_sqes(&batch);
    // Two would not fit behind three: the whole batch is diverted.
    assert_eq!(proxy.sq.len(), 3);
    assert_eq!(proxy.backlog, vec![poll_op(50), poll_op(51)]);

    let mut roomy = RingProxy::new(4, 8);
    roomy.push_sqe(poll_op(0));
    roomy.push_multiple_sqes(&batch);
    assert_eq!(roomy.sq, vec![poll_op(0), poll_op(50), poll_op(51)]);
    assert!(roomy.backlog.is_empty());
}

#[test]
fn submit_retry_classification() {
    assert!(submit_retryable(16));
    assert!(!submit_retryable(5));
    assert!(!submit_retryable(0));
}

#[test]
fn spawn_slots_respects_capacity() {
    let mut proxy = RingProxy::new(16, 8);
    let mut conns = ConnectionSlots::new(3, tok(0), 0, 4);
    conns.spawn_slots(10, &mut proxy);
    assert_eq!(conns.count, 4);
    assert_eq!(proxy.sq.len(), 4);
    for op in &proxy.sq {
        assert_eq!(*op, OpDesc::Accept { listener_fd: 3, token: tok(0) });
    }
}

#[test]
fn top_up_returns_to_capacity_after_completion() {
    let mut proxy = RingProxy::new(16, 8);
    let mut conns = ConnectionSlots::new(3, tok(0), 0, 4);
    conns.spawn_slots(4, &mut proxy);
    assert_eq!(conns.count, 4);
    conns.produce_slot();
    assert_eq!(conns.count, 3);
    conns.spawn_slots(10, &mut proxy);
    assert_eq!(conns.count, 4);
}

#[test]
fn admission_bound_holds_under_interleavings() {
    let mut proxy = RingProxy::new(64, 8);
    let mut conns = ConnectionSlots::new(3, tok(0), 2, 5);
    // A deterministic mix of completions and re-arms; the bound must
    // hold at every step.
    let wants = [3usize, 0, 7, 1, 2, 9, 1, 0, 4, 6];
    for (round, want) in wants.iter().enumerate() {
        if round % 2 == 1 && conns.count > 0 {
            conns.produce_slot();
        }
        conns.spawn_slots(*want, &mut proxy);
        assert!(conns.count <= conns.capacity);
    }
}
