//! The arithmetic evaluator: the planner from the library, and the numeric
//! kernel exactly as the worker runtime performs it.

use worker_core::eval::{plan_expression, finish_eval, Attempt, EvalError, Plan};

fn binary(l: &str, r: &str, zero_matters: bool, op: impl Fn(f64, f64) -> f64) -> Attempt {
    let lv = l.parse::<f64>();
    let rv = r.parse::<f64>();
    let left_ok = lv.is_ok();
    let right_ok = rv.is_ok();
    let divisor_zero = zero_matters && rv.as_ref().map(|v| *v == 0.0).unwrap_or(false);
    let value = match (&lv, &rv) {
        (Ok(a), Ok(b)) if !divisor_zero => Some(op(*a, *b).to_string()),
        _ => None,
    };
    Attempt { left_ok, right_ok, divisor_zero, value }
}

fn kernel_attempt(plan: &Plan) -> Attempt {
    match plan {
        Plan::Add(l, r) => binary(l, r, false, |a, b| a + b),
        Plan::Sub(l, r) => binary(l, r, false, |a, b| a - b),
        Plan::Mul(l, r) => binary(l, r, false, |a, b| a * b),
        Plan::Div(l, r) => binary(l, r, true, |a, b| a / b),
        Plan::Atom(s) => match s.parse::<f64>() {
            Ok(v) => Attempt {
                left_ok: true,
                right_ok: true,
                divisor_zero: false,
                value: Some(v.to_string()),
            },
            Err(_) => Attempt { left_ok: false, right_ok: true, divisor_zero: false, value: None },
        },
    }
}

fn eval_expression_str(expr: &str) -> Result<String, EvalError> {
    let plan = plan_expression(expr);
    let attempt = kernel_attempt(&plan);
    finish_eval(&plan, attempt)
}

#[test]
fn addition_with_spaces() {
    assert_eq!(eval_expression_str("3 + 4"), Ok("7".to_string()));
}

#[test]
fn division_exact() {
    assert_eq!(eval_expression_str("10/2"), Ok("5".to_string()));
}

#[test]
fn leading_minus_is_sign_not_operator() {
    assert_eq!(eval_expression_str("-5 + 2"), Ok("-3".to_string()));
}

#[test]
fn multiplication() {
    assert_eq!(eval_expression_str("6*7"), Ok("42".to_string()));
}

#[test]
fn subtraction_with_negative_right() {
    assert_eq!(eval_expression_str("3--2"), Ok("5".to_string()));
}

#[test]
fn bare_literal() {
    assert_eq!(eval_expression_str("  42 "), Ok("42".to_string()));
}

#[test]
fn division_by_zero_is_an_error() {
    assert_eq!(eval_expression_str("10/0"), Err(EvalError::DivisionByZero));
}

#[test]
fn garbage_is_a_parse_error() {
    assert_eq!(eval_expression_str("abc"), Err(EvalError::Parse));
}

#[test]
fn leading_minus_falls_through_to_star() {
    // a leading '-' is a sign, not an operator: the scan goes on to '*'
    assert_eq!(eval_expression_str("-2*3"), Ok("-6".to_string()));
}

#[test]
fn leading_minus_falls_through_to_slash() {
    assert_eq!(eval_expression_str("-6/2"), Ok("-3".to_string()));
}

#[test]
fn both_operands_may_be_negative() {
    assert_eq!(eval_expression_str("-2*-3"), Ok("6".to_string()));
}

#[test]
fn only_first_minus_counts() {
    // the scan looks at the first '-' only; here it is leading, and with no
    // '*' or '/' the whole string must parse as one number, which fails
    assert_eq!(eval_expression_str("-2-3"), Err(EvalError::Parse));
}

#[test]
fn plan_splits_leading_minus_at_star() {
    let plan = plan_expression("-5*2");
    assert_eq!(plan, Plan::Mul("-5".to_string(), "2".to_string()));
}

#[test]
fn plan_splits_at_first_plus() {
    let plan = plan_expression(" 1 + 2+3");
    assert_eq!(plan, Plan::Add("1".to_string(), "2+3".to_string()));
}

#[test]
fn plan_keeps_leading_minus_atom() {
    let plan = plan_expression("-17");
    assert_eq!(plan, Plan::Atom("-17".to_string()));
}

#[test]
fn error_messages() {
    assert_eq!(EvalError::Parse.message(), "Parse error");
    assert_eq!(EvalError::DivisionByZero.message(), "Division by zero");
}
