//! The lease-loop state machine: a full iteration, back-off behavior, and
//! the absorption of publish and completion failures.

use worker_core::machine::{Worker, LoopState, LoopEvent, LoopAction};

#[test]
fn full_cycle_happy_path() {
    let mut w = Worker::new();
    assert_eq!(w.step(LoopEvent::Start), LoopAction::RequestLease);
    let a = w.step(LoopEvent::Granted { task_id: "t1".to_string(), payload: "{}".to_string() });
    assert_eq!(
        a,
        LoopAction::Evaluate { task_id: "t1".to_string(), payload: "{}".to_string() }
    );
    let a = w.step(LoopEvent::Evaluated {
        channel: "results:rust".to_string(),
        message: "m".to_string(),
    });
    assert_eq!(
        a,
        LoopAction::Publish { channel: "results:rust".to_string(), message: "m".to_string() }
    );
    let a = w.step(LoopEvent::Published { ok: true });
    assert_eq!(a, LoopAction::Complete { task_id: "t1".to_string() });
    let a = w.step(LoopEvent::Completed { ok: true });
    assert_eq!(a, LoopAction::Hold);
    assert_eq!(w.state, LoopState::Idle);
}

#[test]
fn empty_poll_backs_off_then_retries() {
    let mut w = Worker::new();
    w.step(LoopEvent::Start);
    assert_eq!(w.step(LoopEvent::Empty), LoopAction::Sleep);
    assert_eq!(w.state, LoopState::BackingOff);
    assert_eq!(w.step(LoopEvent::Slept), LoopAction::Hold);
    assert_eq!(w.state, LoopState::Idle);
    assert_eq!(w.step(LoopEvent::Start), LoopAction::RequestLease);
}

#[test]
fn lease_failure_does_not_stop_the_loop() {
    let mut w = Worker::new();
    w.step(LoopEvent::Start);
    assert_eq!(w.step(LoopEvent::LeaseFailed), LoopAction::Sleep);
    assert_eq!(w.state, LoopState::BackingOff);
}

#[test]
fn publish_failure_still_completes_the_lease() {
    let mut w = Worker::new();
    w.step(LoopEvent::Start);
    w.step(LoopEvent::Granted { task_id: "t2".to_string(), payload: "p".to_string() });
    w.step(LoopEvent::Evaluated { channel: "ch".to_string(), message: "m".to_string() });
    let a = w.step(LoopEvent::Published { ok: false });
    assert_eq!(a, LoopAction::Complete { task_id: "t2".to_string() });
}

#[test]
fn completion_failure_ends_the_iteration() {
    let mut w = Worker::new();
    w.step(LoopEvent::Start);
    w.step(LoopEvent::Granted { task_id: "t3".to_string(), payload: "p".to_string() });
    w.step(LoopEvent::Evaluated { channel: "ch".to_string(), message: "m".to_string() });
    w.step(LoopEvent::Published { ok: true });
    assert_eq!(w.step(LoopEvent::Completed { ok: false }), LoopAction::Hold);
    assert_eq!(w.state, LoopState::Idle);
}

#[test]
fn stray_event_changes_nothing() {
    let mut w = Worker::new();
    assert_eq!(w.step(LoopEvent::Slept), LoopAction::Hold);
    assert_eq!(w.state, LoopState::Idle);
}
