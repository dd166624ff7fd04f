//! The lease loop as an explicit finite-state machine. The loop's decisions
//! — what to do after a lease is granted, comes back empty or fails, and how
//! publish and completion failures are absorbed without stopping the loop —
//! are a pure transition function; the surrounding runtime performs the
//! returned action and feeds the outcome back as the next event.

use vstd::prelude::*;

verus! {

/// Where the loop stands.
#[derive(Debug, Clone, PartialEq, Eq)]
pub enum LoopState {
    /// Between iterations, ready to ask for work.
    Idle,
    /// A lease request is outstanding.
    Leasing,
    /// A task is held and being evaluated.
    Processing { task_id: String, payload: String },
    /// The result is out; the lease is being retired. `published` tells
    /// whether the publish step has already been answered.
    Completing { task_id: String, published: bool },
    /// An idle or failed poll; the loop sleeps before trying again.
    BackingOff,
}

/// What the runtime reports to the machine.
#[derive(Debug, Clone, PartialEq, Eq)]
pub enum LoopEvent {
    /// Begin the next iteration.
    Start,
    /// The broker granted a lease on a task.
    Granted { task_id: String, payload: String },
    /// The wait window elapsed with no task.
    Empty,
    /// The lease call failed.
    LeaseFailed,
    /// Evaluation finished; the encoded result is ready to publish.
    Evaluated { channel: String, message: String },
    /// The publish call was answered: `true` on success, `false` on failure.
    Published { ok: bool },
    /// The completion call was answered: `true` on success, `false` on
    /// failure.
    Completed { ok: bool },
    /// The back-off sleep elapsed.
    Slept,
}

/// What the runtime must do next.
#[derive(Debug, Clone, PartialEq, Eq)]
pub enum LoopAction {
    /// Ask the broker for a lease with the configured wait and visibility
    /// timeout.
    RequestLease,
    /// Decode and evaluate the held task, then report `Evaluated`.
    Evaluate { task_id: String, payload: String },
    /// Publish the message on the channel, then report `Published`.
    Publish { channel: String, message: String },
    /// Retire the lease of the task, then report `Completed`.
    Complete { task_id: String },
    /// Sleep the fixed back-off interval, then report `Slept`.
    Sleep,
    /// Nothing; the event did not belong to the current state.
    Hold,
}

pub ghost enum LoopStateView {
    Idle,
    Leasing,
    Processing { task_id: Seq<char>, payload: Seq<char> },
    Completing { task_id: Seq<char>, published: bool },
    BackingOff,
}

pub ghost enum LoopEventView {
    Start,
    Granted { task_id: Seq<char>, payload: Seq<char> },
    Empty,
    LeaseFailed,
    Evaluated { channel: Seq<char>, message: Seq<char> },
    Published { ok: bool },
    Completed { ok: bool },
    Slept,
}

pub ghost enum LoopActionView {
    RequestLease,
    Evaluate { task_id: Seq<char>, payload: Seq<char> },
    Publish { channel: Seq<char>, message: Seq<char> },
    Complete { task_id: Seq<char> },
    Sleep,
    Hold,
}

impl View for LoopState {
    type V = LoopStateView;

    open spec fn view(&self) -> LoopStateView {
        match self {
            LoopState::Idle => LoopStateView::Idle,
            LoopState::Leasing => LoopStateView::Leasing,
            LoopState::Processing { task_id, payload } => LoopStateView::Processing {
                task_id: task_id@,
                payload: payload@,
            },
            LoopState::Completing { task_id, published } => LoopStateView::Completing {
                task_id: task_id@,
                published: *published,
            },
            LoopState::BackingOff => LoopStateView::BackingOff,
        }
    }
}

impl View for LoopEvent {
    type V = LoopEventView;

    open spec fn view(&self) -> LoopEventView {
        match self {
            LoopEvent::Start => LoopEventView::Start,
            LoopEvent::Granted { task_id, payload } => LoopEventView::Granted {
                task_id: task_id@,
                payload: payload@,
            },
            LoopEvent::Empty => LoopEventView::Empty,
            LoopEvent::LeaseFailed => LoopEventView::LeaseFailed,
            LoopEvent::Evaluated { channel, message } => LoopEventView::Evaluated {
                channel: channel@,
                message: message@,
            },
            LoopEvent::Published { ok } => LoopEventView::Published { ok: *ok },
            LoopEvent::Completed { ok } => LoopEventView::Completed { ok: *ok },
            LoopEvent::Slept => LoopEventView::Slept,
        }
    }
}

impl View for LoopAction {
    type V = LoopActionView;

    open spec fn view(&self) -> LoopActionView {
        match self {
            LoopAction::RequestLease => LoopActionView::RequestLease,
            LoopAction::Evaluate { task_id, payload } => LoopActionView::Evaluate {
                task_id: task_id@,
                payload: payload@,
            },
            LoopAction::Publish { channel, message } => LoopActionView::Publish {
                channel: channel@,
                message: message@,
            },
            LoopAction::Complete { task_id } => LoopActionView::Complete { task_id: task_id@ },
            LoopAction::Sleep => LoopActionView::Sleep,
            LoopAction::Hold => LoopActionView::Hold,
        }
    }
}

/// The transition relation of the lease loop, one step at a time:
/// - idle, the loop requests a lease;
/// - a granted task is evaluated; an empty or failed poll backs off and
///   retries, so broker errors never stop the loop;
/// - an evaluated task's result is published, whatever the outcome was;
/// - the lease is retired after the publish answer, also when publishing
///   failed, so an undeliverable result is not redelivered forever;
/// - a completion answer, success or failure, ends the iteration: an
///   unacknowledged task is simply redelivered by the broker later;
/// - an event that does not belong to the current state changes nothing.
pub open spec fn spec_step(s: LoopStateView, e: LoopEventView) -> (LoopStateView, LoopActionView) {
    match (s, e) {
        (LoopStateView::Idle, LoopEventView::Start) => (
            LoopStateView::Leasing,
            LoopActionView::RequestLease,
        ),
        (LoopStateView::Leasing, LoopEventView::Granted { task_id, payload }) => (
            LoopStateView::Processing { task_id, payload },
            LoopActionView::Evaluate { task_id, payload },
        ),
        (LoopStateView::Leasing, LoopEventView::Empty) => (
            LoopStateView::BackingOff,
            LoopActionView::Sleep,
        ),
        (LoopStateView::Leasing, LoopEventView::LeaseFailed) => (
            LoopStateView::BackingOff,
            LoopActionView::Sleep,
        ),
        (
            LoopStateView::Processing { task_id, payload },
            LoopEventView::Evaluated { channel, message },
        ) => (
            LoopStateView::Completing { task_id, published: false },
            LoopActionView::Publish { channel, message },
        ),
        (
            LoopStateView::Completing { task_id, published: false },
            LoopEventView::Published { ok },
        ) => (
            LoopStateView::Completing { task_id, published: true },
            LoopActionView::Complete { task_id },
        ),
        (LoopStateView::Completing { task_id, published: true }, LoopEventView::Completed { ok }) => (
            LoopStateView::Idle,
            LoopActionView::Hold,
        ),
        (LoopStateView::BackingOff, LoopEventView::Slept) => (
            LoopStateView::Idle,
            LoopActionView::Hold,
        ),
        (s, _) => (s, LoopActionView::Hold),
    }
}

/// The worker's loop driver state.
pub struct Worker {
    pub state: LoopState,
}

impl Worker {
    /// A fresh worker, idle.
    pub fn new() -> (w: Worker)
        ensures
            w.state@ == LoopStateView::Idle,
    {
        Worker { state: LoopState::Idle }
    }

    /// Feeds one event to the machine and returns the action to perform;
    /// state and action are exactly those of the transition relation.
    pub fn step(&mut self, e: LoopEvent) -> (a: LoopAction)
        ensures
            final(self).state@ == spec_step(old(self).state@, e@).0,
            a@ == spec_step(old(self).state@, e@).1,
    {
        let mut cur = LoopState::Idle;
        core::mem::swap(&mut cur, &mut self.state);
        let (next, action): (LoopState, LoopAction) = match (cur, e) {
            (LoopState::Idle, LoopEvent::Start) => (LoopState::Leasing, LoopAction::RequestLease),
            (LoopState::Leasing, LoopEvent::Granted { task_id, payload }) => {
                let a = LoopAction::Evaluate {
                    task_id: clone_string(&task_id),
                    payload: clone_string(&payload),
                };
                (LoopState::Processing { task_id, payload }, a)
            },
            (LoopState::Leasing, LoopEvent::Empty) => (LoopState::BackingOff, LoopAction::Sleep),
            (LoopState::Leasing, LoopEvent::LeaseFailed) => (
                LoopState::BackingOff,
                LoopAction::Sleep,
            ),
            (LoopState::Processing { task_id, payload }, LoopEvent::Evaluated {
                channel,
                message,
            }) => (
                LoopState::Completing { task_id, published: false },
                LoopAction::Publish { channel, message },
            ),
            (LoopState::Completing { task_id, published }, LoopEvent::Published { ok }) => {
                if !published {
                    let a = LoopAction::Complete { task_id: clone_string(&task_id) };
                    (LoopState::Completing { task_id, published: true }, a)
                } else {
                    (LoopState::Completing { task_id, published }, LoopAction::Hold)
                }
            },
            (LoopState::Completing { task_id, published }, LoopEvent::Completed { ok }) => {
                if published {
                    (LoopState::Idle, LoopAction::Hold)
                } else {
                    (LoopState::Completing { task_id, published }, LoopAction::Hold)
                }
            },
            (LoopState::BackingOff, LoopEvent::Slept) => (LoopState::Idle, LoopAction::Hold),
            (s, _) => (s, LoopAction::Hold),
        };
        self.state = next;
        action
    }
}

/// A copy of a string, character for character.
pub fn clone_string(s: &String) -> (r: String)
    ensures
        r@ == s@,
{
    s.clone()
}

/// Once the result of a task has been published, no event makes the machine
/// publish it again: the only actions still possible for that task are
/// retiring its lease and holding still. Duplicate results can therefore
/// come only from redelivery by the broker, never from one worker's loop.
pub proof fn lemma_no_second_publish(task_id: Seq<char>, e: LoopEventView)
    ensures
        !(spec_step(LoopStateView::Completing { task_id, published: true }, e).1 matches
            LoopActionView::Publish { .. }),
        !(spec_step(LoopStateView::Completing { task_id, published: true }, e).1 matches
            LoopActionView::Evaluate { .. }),
{
}

} // verus!
