//! The broker model: leasing, visibility timeouts, redelivery of expired
//! leases, and idempotent completion.

use worker_core::broker::{QueueModel, SlotState};

#[test]
fn lease_returns_pushed_task() {
    let mut q = QueueModel::new();
    q.push_task("p1".to_string());
    let (h, payload) = q.lease(0, 30).unwrap();
    assert_eq!(payload, "p1");
    assert_eq!(h.slot, 0);
    assert_eq!(h.deadline, 30);
}

#[test]
fn empty_queue_leases_nothing() {
    let mut q = QueueModel::new();
    assert!(q.lease(0, 30).is_none());
}

#[test]
fn leased_task_is_invisible_before_deadline() {
    let mut q = QueueModel::new();
    q.push_task("p1".to_string());
    let _h = q.lease(0, 30).unwrap();
    assert!(q.lease(29, 30).is_none());
}

#[test]
fn expired_lease_is_granted_again() {
    let mut q = QueueModel::new();
    q.push_task("p1".to_string());
    let first = q.lease(0, 30).unwrap();
    // the lease expires unacknowledged; another consumer's call gets the task
    let second = q.lease(30, 30).unwrap();
    assert_eq!(second.1, "p1");
    assert_eq!(second.0.slot, first.0.slot);
}

#[test]
fn completed_task_is_never_redelivered() {
    let mut q = QueueModel::new();
    q.push_task("p1".to_string());
    let (h, _) = q.lease(0, 30).unwrap();
    assert!(q.complete(&h));
    assert!(q.lease(1000, 30).is_none());
}

#[test]
fn completion_twice_is_idempotent() {
    let mut q = QueueModel::new();
    q.push_task("p1".to_string());
    let (h, _) = q.lease(0, 30).unwrap();
    assert!(q.complete(&h));
    // a second completion of the same handle is answered benignly and
    // leaves the queue exactly as it was
    assert!(q.complete(&h));
    assert_eq!(q.slots[0].state, SlotState::Done);
    assert!(q.lease(1000, 30).is_none());
}

#[test]
fn competing_completions_after_expiry_are_benign() {
    let mut q = QueueModel::new();
    q.push_task("p1".to_string());
    let (h1, _) = q.lease(0, 30).unwrap();
    let (h2, _) = q.lease(30, 30).unwrap();
    assert!(q.complete(&h2));
    // the first worker's late completion is a no-op, not an error
    assert!(q.complete(&h1));
    assert_eq!(q.slots[0].state, SlotState::Done);
}

#[test]
fn lease_deadline_saturates() {
    let mut q = QueueModel::new();
    q.push_task("p1".to_string());
    let (h, _) = q.lease(u64::MAX - 5, 30).unwrap();
    assert_eq!(h.deadline, u64::MAX);
}

#[test]
fn lease_picks_first_leasable_task() {
    let mut q = QueueModel::new();
    q.push_task("a".to_string());
    q.push_task("b".to_string());
    let (h, p) = q.lease(0, 30).unwrap();
    assert_eq!((h.slot, p.as_str()), (0, "a"));
    let (h2, p2) = q.lease(0, 30).unwrap();
    assert_eq!((h2.slot, p2.as_str()), (1, "b"));
}
