//! The per-task pipeline of the consumer: decode the leased payload, plan
//! the evaluation, commit the outcome into a result record, and produce the
//! channel and message to publish. The numeric kernel's verdict on a planned
//! arithmetic operation enters as an argument; everything around it is
//! verified.

use vstd::prelude::*;
use vstd::string::StringExecFns;
use crate::codec::{decode_task, spec_decode_task};
use crate::eval::{Plan, Attempt, attempt_computed, finish_eval, plan_expression, plan_ok};
use crate::primes::{count_primes, count_primes_upto};
use crate::record::{
    TaskRecord, PrimeTaskRecord, ResultRecord, Echo, EchoView, Outcome, OutcomeView, make_result,
    channel_name, DecodeError,
};
use crate::render::spec_encode_result;
use crate::strutil::{u64_to_decimal, spec_u64_str};

verus! {

/// The language tag this worker publishes under.
pub fn language_tag() -> (s: String)
    ensures
        s@ == "rust"@,
{
    String::from_str("rust")
}

/// Decodes an arithmetic task and plans its evaluation: the typed record and
/// the planned operation, or the decode failure.
pub fn prepare_task(payload: &str) -> (r: Result<(TaskRecord, Plan), DecodeError>)
    ensures
        match r {
            Ok((task, plan)) => spec_decode_task(payload@) == Some(task@) && plan_ok(
                task@.expression,
                plan,
            ),
            Err(_) => spec_decode_task(payload@) is None,
        },
{
    let task = decode_task(payload)?;
    let plan = plan_expression(task.expression.as_str());
    Ok((task, plan))
}

/// Builds the result record for an arithmetic task from the numeric
/// kernel's verdict, with the evaluator's error precedence: operand parse
/// failures first, then division by zero, else the computed value.
pub fn result_for_task(
    task_id: String,
    task: TaskRecord,
    plan: &Plan,
    attempt: Attempt,
    now: u64,
) -> (r: ResultRecord)
    requires
        attempt_computed(*plan, attempt) ==> attempt.value is Some,
    ensures
        r@.task_id == task_id@,
        r@.client_id == task@.client_id,
        r@.echo == EchoView::Expression(task@.expression),
        r@.language == "rust"@,
        r@.timestamp == now,
        !attempt.left_ok || !attempt.right_ok ==> r@.outcome == OutcomeView::Failure(
            "Parse error"@,
        ),
        attempt.left_ok && attempt.right_ok && *plan is Div && attempt.divisor_zero
            ==> r@.outcome == OutcomeView::Failure("Division by zero"@),
        attempt_computed(*plan, attempt) ==> r@.outcome == OutcomeView::Success(
            attempt.value->Some_0@,
        ),
{
    let eval = finish_eval(plan, attempt);
    make_result(
        task_id,
        task.client_id,
        Echo::Expression(task.expression),
        eval,
        language_tag(),
        now,
    )
}

/// Builds the error result published for a payload that did not decode: the
/// task is permanently malformed, so it is answered rather than redelivered.
pub fn result_for_malformed(task_id: String, now: u64) -> (r: ResultRecord)
    ensures
        r@.task_id == task_id@,
        r@.client_id == Seq::<char>::empty(),
        r@.echo == EchoView::Expression(Seq::<char>::empty()),
        r@.outcome == OutcomeView::Failure("Decode error"@),
        r@.language == "rust"@,
        r@.timestamp == now,
{
    ResultRecord {
        task_id,
        client_id: String::new(),
        echo: Echo::Expression(String::new()),
        outcome: Outcome::Failure(String::from_str("Decode error")),
        language: language_tag(),
        timestamp: now,
    }
}

/// Evaluates a prime-counting task outright — the whole computation is
/// inside the library — and builds its result record.
pub fn result_for_prime_task(task_id: String, task: PrimeTaskRecord, now: u64) -> (r: ResultRecord)
    requires
        task.number < usize::MAX as u64,
    ensures
        r@.task_id == task_id@,
        r@.client_id == task@.client_id,
        r@.echo == EchoView::Number(task@.number),
        r@.outcome == OutcomeView::Success(spec_u64_str(count_primes_upto(task@.number as int))),
        r@.language == "rust"@,
        r@.timestamp == now,
{
    let count = count_primes(task.number);
    make_result(
        task_id,
        task.client_id,
        Echo::Number(task.number),
        Ok(u64_to_decimal(count)),
        language_tag(),
        now,
    )
}

/// The channel and message for one result record: the per-language broadcast
/// channel, and the canonical encoding of the record.
pub fn publication(r: &ResultRecord) -> (p: (String, String))
    ensures
        p.0@ == "results:"@ + r@.language,
        p.1@ == spec_encode_result(r@),
{
    let channel = channel_name(r.language.as_str());
    let message = crate::render::encode_result(r);
    (channel, message)
}

} // verus!
