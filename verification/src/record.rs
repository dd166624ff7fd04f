//! The typed task and result records that flow through the consumer
//! pipeline. A result carries exactly one of a success value or a failure
//! reason: the invariant is held at the type level by `Outcome`.

use vstd::prelude::*;
use vstd::string::StringExecFns;
use crate::eval::EvalError;

verus! {

/// A decoded arithmetic task payload.
#[derive(Debug, Clone, PartialEq, Eq)]
pub struct TaskRecord {
    pub expression: String,
    pub client_id: String,
    pub timestamp: u64,
}

/// A decoded prime-counting task payload.
#[derive(Debug, Clone, PartialEq, Eq)]
pub struct PrimeTaskRecord {
    pub number: u64,
    pub client_id: String,
    pub timestamp: u64,
}

/// The domain input echoed back in a result.
#[derive(Debug, Clone, PartialEq, Eq)]
pub enum Echo {
    Expression(String),
    Number(u64),
}

/// The outcome of evaluating a task: a success value or a failure reason,
/// never both and never neither.
#[derive(Debug, Clone, PartialEq, Eq)]
pub enum Outcome {
    Success(String),
    Failure(String),
}

/// The record published after one processing attempt.
#[derive(Debug, Clone, PartialEq, Eq)]
pub struct ResultRecord {
    pub task_id: String,
    pub client_id: String,
    pub echo: Echo,
    pub outcome: Outcome,
    pub language: String,
    pub timestamp: u64,
}

/// A malformed task payload: required fields absent or of the wrong shape.
#[derive(Debug, Clone, PartialEq, Eq)]
pub struct DecodeError;

pub ghost struct TaskView {
    pub expression: Seq<char>,
    pub client_id: Seq<char>,
    pub timestamp: u64,
}

pub ghost struct PrimeTaskView {
    pub number: u64,
    pub client_id: Seq<char>,
    pub timestamp: u64,
}

pub ghost enum EchoView {
    Expression(Seq<char>),
    Number(u64),
}

pub ghost enum OutcomeView {
    Success(Seq<char>),
    Failure(Seq<char>),
}

pub ghost struct ResultView {
    pub task_id: Seq<char>,
    pub client_id: Seq<char>,
    pub echo: EchoView,
    pub outcome: OutcomeView,
    pub language: Seq<char>,
    pub timestamp: u64,
}

impl View for TaskRecord {
    type V = TaskView;

    open spec fn view(&self) -> TaskView {
        TaskView {
            expression: self.expression@,
            client_id: self.client_id@,
            timestamp: self.timestamp,
        }
    }
}

impl View for PrimeTaskRecord {
    type V = PrimeTaskView;

    open spec fn view(&self) -> PrimeTaskView {
        PrimeTaskView { number: self.number, client_id: self.client_id@, timestamp: self.timestamp }
    }
}

impl View for Echo {
    type V = EchoView;

    open spec fn view(&self) -> EchoView {
        match self {
            Echo::Expression(s) => EchoView::Expression(s@),
            Echo::Number(n) => EchoView::Number(*n),
        }
    }
}

impl View for Outcome {
    type V = OutcomeView;

    open spec fn view(&self) -> OutcomeView {
        match self {
            Outcome::Success(s) => OutcomeView::Success(s@),
            Outcome::Failure(s) => OutcomeView::Failure(s@),
        }
    }
}

impl View for ResultRecord {
    type V = ResultView;

    open spec fn view(&self) -> ResultView {
        ResultView {
            task_id: self.task_id@,
            client_id: self.client_id@,
            echo: self.echo@,
            outcome: self.outcome@,
            language: self.language@,
            timestamp: self.timestamp,
        }
    }
}

/// The failure reason published for a domain evaluation error.
pub open spec fn spec_error_message(e: EvalError) -> Seq<char> {
    match e {
        EvalError::Parse => "Parse error"@,
        EvalError::DivisionByZero => "Division by zero"@,
    }
}

/// Builds the result record for one processing attempt: the task's identity
/// and domain input are echoed unchanged, and the evaluation outcome is
/// committed as exactly one of a value or a failure reason.
pub fn make_result(
    task_id: String,
    client_id: String,
    echo: Echo,
    eval: Result<String, EvalError>,
    language: String,
    now: u64,
) -> (r: ResultRecord)
    ensures
        r@.task_id == task_id@,
        r@.client_id == client_id@,
        r@.echo == echo@,
        r@.language == language@,
        r@.timestamp == now,
        match eval {
            Ok(v) => r@.outcome == OutcomeView::Success(v@),
            Err(e) => r@.outcome == OutcomeView::Failure(spec_error_message(e)),
        },
{
    let outcome = match eval {
        Ok(v) => Outcome::Success(v),
        Err(e) => Outcome::Failure(e.message()),
    };
    ResultRecord { task_id, client_id, echo, outcome, language, timestamp: now }
}

/// The broadcast channel that results of the given worker kind are sent to.
pub fn channel_name(language: &str) -> (s: String)
    ensures
        s@ == "results:"@ + language@,
{
    let mut s = String::from_str("results:");
    s.append(language);
    s
}

} // verus!
