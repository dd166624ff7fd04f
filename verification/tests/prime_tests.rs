//! The prime-counting evaluator on concrete bounds.

use worker_core::primes::count_primes;
use worker_core::record::PrimeTaskRecord;
use worker_core::worker::result_for_prime_task;
use worker_core::record::{Echo, Outcome};

#[test]
fn no_primes_below_two() {
    assert_eq!(count_primes(0), 0);
    assert_eq!(count_primes(1), 0);
}

#[test]
fn two_is_the_first_prime() {
    assert_eq!(count_primes(2), 1);
}

#[test]
fn four_primes_up_to_ten() {
    assert_eq!(count_primes(10), 4);
}

#[test]
fn twenty_five_primes_up_to_hundred() {
    assert_eq!(count_primes(100), 25);
}

#[test]
fn prime_task_result_record() {
    let task = PrimeTaskRecord { number: 10, client_id: "c9".to_string(), timestamp: 5 };
    let r = result_for_prime_task("t9".to_string(), task, 77);
    assert_eq!(r.task_id, "t9");
    assert_eq!(r.client_id, "c9");
    assert_eq!(r.echo, Echo::Number(10));
    assert_eq!(r.outcome, Outcome::Success("4".to_string()));
    assert_eq!(r.language, "rust");
    assert_eq!(r.timestamp, 77);
}
