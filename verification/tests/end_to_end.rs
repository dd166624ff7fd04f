//! The whole consumer pipeline against the broker model: a submitted
//! arithmetic task is leased, decoded, planned, evaluated, published on the
//! per-language channel, and its lease completed.

use worker_core::broker::QueueModel;
use worker_core::codec::decode_result;
use worker_core::eval::{Attempt, Plan};
use worker_core::machine::{Worker, LoopEvent, LoopAction, LoopState};
use worker_core::record::{Echo, Outcome};
use worker_core::worker::{prepare_task, result_for_task, publication};

fn numeric_verdict(plan: &Plan) -> Attempt {
    match plan {
        Plan::Mul(l, r) => {
            let a = l.parse::<f64>();
            let b = r.parse::<f64>();
            let value = match (&a, &b) {
                (Ok(x), Ok(y)) => Some((x * y).to_string()),
                _ => None,
            };
            Attempt { left_ok: a.is_ok(), right_ok: b.is_ok(), divisor_zero: false, value }
        },
        _ => Attempt { left_ok: false, right_ok: false, divisor_zero: false, value: None },
    }
}

#[test]
fn submitted_task_is_processed_and_published() {
    let submitted_at: u64 = 1700000000000;
    let completed_at: u64 = 1700000000555;

    // a producer submits the task
    let mut queue = QueueModel::new();
    queue.push_task(format!(
        "{{\"expression\":\"6*7\",\"clientId\":\"c1\",\"timestamp\":{}}}",
        submitted_at
    ));

    // the worker's loop leases it
    let mut machine = Worker::new();
    assert_eq!(machine.step(LoopEvent::Start), LoopAction::RequestLease);
    let (handle, payload) = queue.lease(submitted_at, 30_000).unwrap();
    let action = machine.step(LoopEvent::Granted {
        task_id: "task-1".to_string(),
        payload: payload.clone(),
    });
    assert!(matches!(action, LoopAction::Evaluate { .. }));

    // decode, plan, evaluate, encode
    let (task, plan) = prepare_task(&payload).unwrap();
    assert_eq!(task.client_id, "c1");
    assert_eq!(task.timestamp, submitted_at);
    let verdict = numeric_verdict(&plan);
    let record = result_for_task("task-1".to_string(), task, &plan, verdict, completed_at);
    let (channel, message) = publication(&record);
    assert_eq!(channel, "results:rust");

    // publish and complete through the machine
    let action = machine.step(LoopEvent::Evaluated { channel, message: message.clone() });
    assert!(matches!(action, LoopAction::Publish { .. }));
    let action = machine.step(LoopEvent::Published { ok: true });
    assert_eq!(action, LoopAction::Complete { task_id: "task-1".to_string() });
    assert!(queue.complete(&handle));
    machine.step(LoopEvent::Completed { ok: true });
    assert_eq!(machine.state, LoopState::Idle);

    // what a downstream consumer of the broadcast channel sees
    let seen = decode_result(&message).unwrap();
    assert_eq!(seen.task_id, "task-1");
    assert_eq!(seen.client_id, "c1");
    assert_eq!(seen.echo, Echo::Expression("6*7".to_string()));
    assert_eq!(seen.outcome, Outcome::Success("42".to_string()));
    assert_eq!(seen.language, "rust");
    assert_eq!(seen.timestamp, completed_at);

    // duplicate completion of the same lease stays benign
    assert!(queue.complete(&handle));
    assert!(queue.lease(completed_at, 30_000).is_none());
}

#[test]
fn malformed_payload_is_answered_not_redelivered() {
    let payload = "not json";
    assert!(prepare_task(payload).is_err());
    let record = worker_core::worker::result_for_malformed("task-2".to_string(), 5);
    let (channel, message) = publication(&record);
    assert_eq!(channel, "results:rust");
    let seen = decode_result(&message).unwrap();
    assert_eq!(seen.outcome, Outcome::Failure("Decode error".to_string()));
    assert_eq!(seen.task_id, "task-2");
}
