//! The task envelope codec: decoding of both task kinds, encoding of
//! results, and the round trip between them.

use worker_core::codec::{decode_task, decode_prime_task, decode_result};
use worker_core::record::{ResultRecord, Echo, Outcome};
use worker_core::render::encode_result;

#[test]
fn decode_arith_task_fields() {
    let t = decode_task(r#"{"expression":"6*7","clientId":"c1","timestamp":123}"#).unwrap();
    assert_eq!(t.expression, "6*7");
    assert_eq!(t.client_id, "c1");
    assert_eq!(t.timestamp, 123);
}

#[test]
fn decode_accepts_any_field_order_and_whitespace() {
    let t = decode_task(
        " { \"timestamp\" : 7 , \"expression\" : \"1+1\" , \"clientId\" : \"z\" } ",
    ).unwrap();
    assert_eq!(t.expression, "1+1");
    assert_eq!(t.client_id, "z");
    assert_eq!(t.timestamp, 7);
}

#[test]
fn decode_rejects_missing_field() {
    assert!(decode_task(r#"{"expression":"1+1","timestamp":7}"#).is_err());
}

#[test]
fn decode_rejects_wrong_shape() {
    assert!(decode_task(r#"{"expression":1,"clientId":"c","timestamp":7}"#).is_err());
    assert!(decode_task(r#"{"expression":"1","clientId":"c","timestamp":"7"}"#).is_err());
}

#[test]
fn decode_rejects_duplicate_field() {
    assert!(decode_task(r#"{"expression":"1","expression":"2","clientId":"c","timestamp":7}"#)
        .is_err());
}

#[test]
fn decode_ignores_unknown_field() {
    let t = decode_task(r#"{"expression":"1","clientId":"c","timestamp":7,"extra":"x"}"#).unwrap();
    assert_eq!(t.expression, "1");
    let t2 = decode_task(r#"{"later":9,"expression":"2","clientId":"c","timestamp":7}"#).unwrap();
    assert_eq!(t2.expression, "2");
}

#[test]
fn decode_rejects_trailing_text() {
    assert!(decode_task(r#"{"expression":"1","clientId":"c","timestamp":7}x"#).is_err());
}

#[test]
fn decode_rejects_non_object() {
    assert!(decode_task("[1,2]").is_err());
    assert!(decode_task("").is_err());
}

#[test]
fn decode_rejects_timestamp_overflow() {
    assert!(decode_task(r#"{"expression":"1","clientId":"c","timestamp":99999999999999999999}"#)
        .is_err());
}

#[test]
fn decode_rejects_leading_zero_number() {
    assert!(decode_task(r#"{"expression":"1","clientId":"c","timestamp":007}"#).is_err());
    let t = decode_task(r#"{"expression":"1","clientId":"c","timestamp":0}"#).unwrap();
    assert_eq!(t.timestamp, 0);
}

#[test]
fn encode_escapes_control_characters() {
    let r = ResultRecord {
        task_id: "t4".to_string(),
        client_id: "c4".to_string(),
        echo: Echo::Expression("1\n\t2".to_string()),
        outcome: Outcome::Success("3".to_string()),
        language: "rust".to_string(),
        timestamp: 1,
    };
    let s = encode_result(&r);
    assert!(s.contains(r#""expression":"1\n\t2""#));
    let decoded = decode_result(&s).unwrap();
    assert_eq!(decoded, r);
}

#[test]
fn decode_handles_escapes() {
    let t = decode_task(r#"{"expression":"a\"b\\c\n","clientId":"c","timestamp":1}"#).unwrap();
    assert_eq!(t.expression, "a\"b\\c\n");
}

#[test]
fn decode_prime_task_fields() {
    let t = decode_prime_task(r#"{"number":10,"clientId":"p1","timestamp":9}"#).unwrap();
    assert_eq!(t.number, 10);
    assert_eq!(t.client_id, "p1");
    assert_eq!(t.timestamp, 9);
}

#[test]
fn encode_result_canonical_form() {
    let r = ResultRecord {
        task_id: "t1".to_string(),
        client_id: "c1".to_string(),
        echo: Echo::Expression("6*7".to_string()),
        outcome: Outcome::Success("42".to_string()),
        language: "rust".to_string(),
        timestamp: 9,
    };
    assert_eq!(
        encode_result(&r),
        r#"{"taskId":"t1","clientId":"c1","expression":"6*7","result":"42","language":"rust","timestamp":9}"#
    );
}

#[test]
fn encode_error_result_has_error_field_only() {
    let r = ResultRecord {
        task_id: "t2".to_string(),
        client_id: "c2".to_string(),
        echo: Echo::Expression("10/0".to_string()),
        outcome: Outcome::Failure("Division by zero".to_string()),
        language: "rust".to_string(),
        timestamp: 10,
    };
    let s = encode_result(&r);
    assert!(s.contains(r#""error":"Division by zero""#));
    assert!(!s.contains(r#""result":"#));
}

#[test]
fn result_round_trip_success() {
    let r = ResultRecord {
        task_id: "t1".to_string(),
        client_id: "c1".to_string(),
        echo: Echo::Expression("a\"b\\c".to_string()),
        outcome: Outcome::Success("42".to_string()),
        language: "rust".to_string(),
        timestamp: u64::MAX,
    };
    let decoded = decode_result(&encode_result(&r)).unwrap();
    assert_eq!(decoded, r);
}

#[test]
fn result_round_trip_failure_and_number_echo() {
    let r = ResultRecord {
        task_id: "t3".to_string(),
        client_id: "c3".to_string(),
        echo: Echo::Number(0),
        outcome: Outcome::Failure("Parse error".to_string()),
        language: "go".to_string(),
        timestamp: 0,
    };
    let decoded = decode_result(&encode_result(&r)).unwrap();
    assert_eq!(decoded, r);
}

#[test]
fn decode_result_rejects_both_result_and_error() {
    let s = r#"{"taskId":"t","clientId":"c","expression":"1","result":"1","error":"x","language":"rust","timestamp":1}"#;
    assert!(decode_result(s).is_err());
}

#[test]
fn decode_result_rejects_neither_result_nor_error() {
    let s = r#"{"taskId":"t","clientId":"c","expression":"1","language":"rust","timestamp":1}"#;
    assert!(decode_result(s).is_err());
}
