//! Decoding of task payloads and encoding of result records, on top of the
//! JSON parser: each wire object must carry every field of its record kind
//! exactly once, with the right value shape; members under other names are
//! ignored.

use vstd::prelude::*;
use vstd::string::StrSliceExecFns;
use vstd::string::StringExecFns;
use crate::json::{JVal, JField, sp_top, mview, parse_top};
use crate::record::{
    TaskRecord, PrimeTaskRecord, ResultRecord, Echo, Outcome, DecodeError, TaskView,
    PrimeTaskView, ResultView, EchoView, OutcomeView,
};
use crate::strutil::chars_to_string;

verus! {

/// Comparison of a character vector with a string.
pub fn chars_eq_str(v: &Vec<char>, s: &str) -> (b: bool)
    ensures
        b == (v@ == s@),
{
    let n = s.unicode_len();
    if v.len() != n {
        proof {
            if v@ == s@ {
                assert(v@.len() == s@.len());
            }
        }
        return false;
    }
    let mut i: usize = 0;
    while i < n
        invariant
            i <= n,
            n == s@.len(),
            v@.len() == n,
            forall|j: int| 0 <= j < i ==> v@[j] == s@[j],
        decreases n - i,
    {
        if v[i] != s.get_char(i) {
            return false;
        }
        i += 1;
    }
    proof {
        assert(v@ =~= s@);
    }
    true
}

/// The view of an optional character vector.
pub open spec fn oview(o: Option<Vec<char>>) -> Option<Seq<char>> {
    match o {
        Some(v) => Some(v@),
        None => None,
    }
}

/// Folds the members of an arithmetic task object, left to right: each of
/// the three expected keys must carry the right value shape and occur only
/// once, other keys are passed over, and at the end all three must be
/// present.
pub open spec fn sp_fill_task(
    ms: Seq<(Seq<char>, JVal)>,
    t: int,
    e: Option<Seq<char>>,
    c: Option<Seq<char>>,
    ts: Option<u64>,
) -> Option<TaskView>
    decreases ms.len() - t,
{
    if t < 0 {
        None
    } else if t >= ms.len() {
        if e is Some && c is Some && ts is Some {
            Some(
                TaskView {
                    expression: e->Some_0,
                    client_id: c->Some_0,
                    timestamp: ts->Some_0,
                },
            )
        } else {
            None
        }
    } else {
        let (k, val) = ms[t];
        if k == "expression"@ {
            match val {
                JVal::S(s) => if e is None {
                    sp_fill_task(ms, t + 1, Some(s), c, ts)
                } else {
                    None
                },
                JVal::N(_) => None,
            }
        } else if k == "clientId"@ {
            match val {
                JVal::S(s) => if c is None {
                    sp_fill_task(ms, t + 1, e, Some(s), ts)
                } else {
                    None
                },
                JVal::N(_) => None,
            }
        } else if k == "timestamp"@ {
            match val {
                JVal::N(n) => if ts is None {
                    sp_fill_task(ms, t + 1, e, c, Some(n))
                } else {
                    None
                },
                JVal::S(_) => None,
            }
        } else {
            sp_fill_task(ms, t + 1, e, c, ts)
        }
    }
}

/// What decoding an arithmetic task payload yields, if anything.
pub open spec fn spec_decode_task(s: Seq<char>) -> Option<TaskView> {
    match sp_top(s) {
        None => None,
        Some(ms) => sp_fill_task(ms, 0, None, None, None),
    }
}

/// Decodes an arithmetic task payload. Succeeds exactly on the payloads the
/// reference parser accepts, and then returns exactly the record it
/// describes.
#[verifier::loop_isolation(false)]
pub fn decode_task(payload: &str) -> (r: Result<TaskRecord, DecodeError>)
    ensures
        match r {
            Ok(t) => spec_decode_task(payload@) == Some(t@),
            Err(_) => spec_decode_task(payload@) is None,
        },
{
    let ms = match parse_top(payload) {
        Some(ms) => ms,
        None => {
            return Err(DecodeError);
        },
    };
    let ghost msv = mview(ms@);
    let mut e: Option<Vec<char>> = None;
    let mut c: Option<Vec<char>> = None;
    let mut ts: Option<u64> = None;
    let mut i: usize = 0;
    while i < ms.len()
        invariant
            i <= ms@.len(),
            msv == mview(ms@),
            sp_fill_task(msv, 0, None, None, None) == sp_fill_task(
                msv,
                i as int,
                oview(e),
                oview(c),
                ts,
            ),
        decreases ms@.len() - i,
    {
        proof {
            assert(msv[i as int] == (ms@[i as int].0@, ms@[i as int].1@));
        }
        let (k, val) = &ms[i];
        if chars_eq_str(k, "expression") {
            match val {
                JField::S(s) => {
                    if e.is_none() {
                        e = Some(s.clone());
                    } else {
                        return Err(DecodeError);
                    }
                },
                JField::N(_) => {
                    return Err(DecodeError);
                },
            }
        } else if chars_eq_str(k, "clientId") {
            match val {
                JField::S(s) => {
                    if c.is_none() {
                        c = Some(s.clone());
                    } else {
                        return Err(DecodeError);
                    }
                },
                JField::N(_) => {
                    return Err(DecodeError);
                },
            }
        } else if chars_eq_str(k, "timestamp") {
            match val {
                JField::N(n) => {
                    if ts.is_none() {
                        ts = Some(*n);
                    } else {
                        return Err(DecodeError);
                    }
                },
                JField::S(_) => {
                    return Err(DecodeError);
                },
            }
        }
        i += 1;
    }
    match (e, c, ts) {
        (Some(ev), Some(cv), Some(tsv)) => {
            let t = TaskRecord {
                expression: chars_to_string(&ev),
                client_id: chars_to_string(&cv),
                timestamp: tsv,
            };
            Ok(t)
        },
        _ => Err(DecodeError),
    }
}

/// Folds the members of a prime-counting task object, as `sp_fill_task` does
/// for the arithmetic kind.
pub open spec fn sp_fill_prime(
    ms: Seq<(Seq<char>, JVal)>,
    t: int,
    num: Option<u64>,
    c: Option<Seq<char>>,
    ts: Option<u64>,
) -> Option<PrimeTaskView>
    decreases ms.len() - t,
{
    if t < 0 {
        None
    } else if t >= ms.len() {
        if num is Some && c is Some && ts is Some {
            Some(PrimeTaskView { number: num->Some_0, client_id: c->Some_0, timestamp: ts->Some_0 })
        } else {
            None
        }
    } else {
        let (k, val) = ms[t];
        if k == "number"@ {
            match val {
                JVal::N(n) => if num is None {
                    sp_fill_prime(ms, t + 1, Some(n), c, ts)
                } else {
                    None
                },
                JVal::S(_) => None,
            }
        } else if k == "clientId"@ {
            match val {
                JVal::S(s) => if c is None {
                    sp_fill_prime(ms, t + 1, num, Some(s), ts)
                } else {
                    None
                },
                JVal::N(_) => None,
            }
        } else if k == "timestamp"@ {
            match val {
                JVal::N(n) => if ts is None {
                    sp_fill_prime(ms, t + 1, num, c, Some(n))
                } else {
                    None
                },
                JVal::S(_) => None,
            }
        } else {
            sp_fill_prime(ms, t + 1, num, c, ts)
        }
    }
}

/// What decoding a prime-counting task payload yields, if anything.
pub open spec fn spec_decode_prime(s: Seq<char>) -> Option<PrimeTaskView> {
    match sp_top(s) {
        None => None,
        Some(ms) => sp_fill_prime(ms, 0, None, None, None),
    }
}

/// Decodes a prime-counting task payload.
#[verifier::loop_isolation(false)]
pub fn decode_prime_task(payload: &str) -> (r: Result<PrimeTaskRecord, DecodeError>)
    ensures
        match r {
            Ok(t) => spec_decode_prime(payload@) == Some(t@),
            Err(_) => spec_decode_prime(payload@) is None,
        },
{
    let ms = match parse_top(payload) {
        Some(ms) => ms,
        None => {
            return Err(DecodeError);
        },
    };
    let ghost msv = mview(ms@);
    let mut num: Option<u64> = None;
    let mut c: Option<Vec<char>> = None;
    let mut ts: Option<u64> = None;
    let mut i: usize = 0;
    while i < ms.len()
        invariant
            i <= ms@.len(),
            msv == mview(ms@),
            sp_fill_prime(msv, 0, None, None, None) == sp_fill_prime(
                msv,
                i as int,
                num,
                oview(c),
                ts,
            ),
        decreases ms@.len() - i,
    {
        proof {
            assert(msv[i as int] == (ms@[i as int].0@, ms@[i as int].1@));
        }
        let (k, val) = &ms[i];
        if chars_eq_str(k, "number") {
            match val {
                JField::N(n) => {
                    if num.is_none() {
                        num = Some(*n);
                    } else {
                        return Err(DecodeError);
                    }
                },
                JField::S(_) => {
                    return Err(DecodeError);
                },
            }
        } else if chars_eq_str(k, "clientId") {
            match val {
                JField::S(s) => {
                    if c.is_none() {
                        c = Some(s.clone());
                    } else {
                        return Err(DecodeError);
                    }
                },
                JField::N(_) => {
                    return Err(DecodeError);
                },
            }
        } else if chars_eq_str(k, "timestamp") {
            match val {
                JField::N(n) => {
                    if ts.is_none() {
                        ts = Some(*n);
                    } else {
                        return Err(DecodeError);
                    }
                },
                JField::S(_) => {
                    return Err(DecodeError);
                },
            }
        }
        i += 1;
    }
    match (num, c, ts) {
        (Some(nv), Some(cv), Some(tsv)) => Ok(
            PrimeTaskRecord { number: nv, client_id: chars_to_string(&cv), timestamp: tsv },
        ),
        _ => Err(DecodeError),
    }
}

/// Folds the members of a result object: the four string fields, the echoed
/// input (`expression` or `number`, exactly one), and the outcome (`result`
/// or `error`, exactly one); members under other names are passed over.
pub open spec fn sp_fill_result(
    ms: Seq<(Seq<char>, JVal)>,
    t: int,
    tid: Option<Seq<char>>,
    cid: Option<Seq<char>>,
    ex: Option<Seq<char>>,
    num: Option<u64>,
    res: Option<Seq<char>>,
    err: Option<Seq<char>>,
    lang: Option<Seq<char>>,
    ts: Option<u64>,
) -> Option<ResultView>
    decreases ms.len() - t,
{
    if t < 0 {
        None
    } else if t >= ms.len() {
        if tid is Some && cid is Some && lang is Some && ts is Some && (ex is Some <==> num is None)
            && (res is Some <==> err is None) {
            Some(
                ResultView {
                    task_id: tid->Some_0,
                    client_id: cid->Some_0,
                    echo: if ex is Some {
                        EchoView::Expression(ex->Some_0)
                    } else {
                        EchoView::Number(num->Some_0)
                    },
                    outcome: if res is Some {
                        OutcomeView::Success(res->Some_0)
                    } else {
                        OutcomeView::Failure(err->Some_0)
                    },
                    language: lang->Some_0,
                    timestamp: ts->Some_0,
                },
            )
        } else {
            None
        }
    } else {
        let (k, val) = ms[t];
        if k == "taskId"@ {
            match val {
                JVal::S(s) => if tid is None {
                    sp_fill_result(ms, t + 1, Some(s), cid, ex, num, res, err, lang, ts)
                } else {
                    None
                },
                JVal::N(_) => None,
            }
        } else if k == "clientId"@ {
            match val {
                JVal::S(s) => if cid is None {
                    sp_fill_result(ms, t + 1, tid, Some(s), ex, num, res, err, lang, ts)
                } else {
                    None
                },
                JVal::N(_) => None,
            }
        } else if k == "expression"@ {
            match val {
                JVal::S(s) => if ex is None && num is None {
                    sp_fill_result(ms, t + 1, tid, cid, Some(s), num, res, err, lang, ts)
                } else {
                    None
                },
                JVal::N(_) => None,
            }
        } else if k == "number"@ {
            match val {
                JVal::N(n) => if ex is None && num is None {
                    sp_fill_result(ms, t + 1, tid, cid, ex, Some(n), res, err, lang, ts)
                } else {
                    None
                },
                JVal::S(_) => None,
            }
        } else if k == "result"@ {
            match val {
                JVal::S(s) => if res is None && err is None {
                    sp_fill_result(ms, t + 1, tid, cid, ex, num, Some(s), err, lang, ts)
                } else {
                    None
                },
                JVal::N(_) => None,
            }
        } else if k == "error"@ {
            match val {
                JVal::S(s) => if res is None && err is None {
                    sp_fill_result(ms, t + 1, tid, cid, ex, num, res, Some(s), lang, ts)
                } else {
                    None
                },
                JVal::N(_) => None,
            }
        } else if k == "language"@ {
            match val {
                JVal::S(s) => if lang is None {
                    sp_fill_result(ms, t + 1, tid, cid, ex, num, res, err, Some(s), ts)
                } else {
                    None
                },
                JVal::N(_) => None,
            }
        } else if k == "timestamp"@ {
            match val {
                JVal::N(n) => if ts is None {
                    sp_fill_result(ms, t + 1, tid, cid, ex, num, res, err, lang, Some(n))
                } else {
                    None
                },
                JVal::S(_) => None,
            }
        } else {
            sp_fill_result(ms, t + 1, tid, cid, ex, num, res, err, lang, ts)
        }
    }
}

/// What decoding a result payload yields, if anything. A payload only
/// decodes when exactly one of `result` and `error` is present, so a decoded
/// record always upholds the mutual-exclusivity invariant.
pub open spec fn spec_decode_result(s: Seq<char>) -> Option<ResultView> {
    match sp_top(s) {
        None => None,
        Some(ms) => sp_fill_result(ms, 0, None, None, None, None, None, None, None, None),
    }
}

/// Decodes a result payload, as a downstream consumer of the broadcast
/// channel would.
#[verifier::loop_isolation(false)]
pub fn decode_result(payload: &str) -> (r: Result<ResultRecord, DecodeError>)
    ensures
        match r {
            Ok(t) => spec_decode_result(payload@) == Some(t@),
            Err(_) => spec_decode_result(payload@) is None,
        },
{
    let ms = match parse_top(payload) {
        Some(ms) => ms,
        None => {
            return Err(DecodeError);
        },
    };
    let ghost msv = mview(ms@);
    let mut tid: Option<Vec<char>> = None;
    let mut cid: Option<Vec<char>> = None;
    let mut ex: Option<Vec<char>> = None;
    let mut num: Option<u64> = None;
    let mut res: Option<Vec<char>> = None;
    let mut err: Option<Vec<char>> = None;
    let mut lang: Option<Vec<char>> = None;
    let mut ts: Option<u64> = None;
    let mut i: usize = 0;
    while i < ms.len()
        invariant
            i <= ms@.len(),
            msv == mview(ms@),
            sp_fill_result(msv, 0, None, None, None, None, None, None, None, None)
                == sp_fill_result(
                msv,
                i as int,
                oview(tid),
                oview(cid),
                oview(ex),
                num,
                oview(res),
                oview(err),
                oview(lang),
                ts,
            ),
        decreases ms@.len() - i,
    {
        proof {
            assert(msv[i as int] == (ms@[i as int].0@, ms@[i as int].1@));
        }
        let (k, val) = &ms[i];
        if chars_eq_str(k, "taskId") {
            match val {
                JField::S(s) => {
                    if tid.is_none() {
                        tid = Some(s.clone());
                    } else {
                        return Err(DecodeError);
                    }
                },
                JField::N(_) => {
                    return Err(DecodeError);
                },
            }
        } else if chars_eq_str(k, "clientId") {
            match val {
                JField::S(s) => {
                    if cid.is_none() {
                        cid = Some(s.clone());
                    } else {
                        return Err(DecodeError);
                    }
                },
                JField::N(_) => {
                    return Err(DecodeError);
                },
            }
        } else if chars_eq_str(k, "expression") {
            match val {
                JField::S(s) => {
                    if ex.is_none() && num.is_none() {
                        ex = Some(s.clone());
                    } else {
                        return Err(DecodeError);
                    }
                },
                JField::N(_) => {
                    return Err(DecodeError);
                },
            }
        } else if chars_eq_str(k, "number") {
            match val {
                JField::N(n) => {
                    if ex.is_none() && num.is_none() {
                        num = Some(*n);
                    } else {
                        return Err(DecodeError);
                    }
                },
                JField::S(_) => {
                    return Err(DecodeError);
                },
            }
        } else if chars_eq_str(k, "result") {
            match val {
                JField::S(s) => {
                    if res.is_none() && err.is_none() {
                        res = Some(s.clone());
                    } else {
                        return Err(DecodeError);
                    }
                },
                JField::N(_) => {
                    return Err(DecodeError);
                },
            }
        } else if chars_eq_str(k, "error") {
            match val {
                JField::S(s) => {
                    if res.is_none() && err.is_none() {
                        err = Some(s.clone());
                    } else {
                        return Err(DecodeError);
                    }
                },
                JField::N(_) => {
                    return Err(DecodeError);
                },
            }
        } else if chars_eq_str(k, "language") {
            match val {
                JField::S(s) => {
                    if lang.is_none() {
                        lang = Some(s.clone());
                    } else {
                        return Err(DecodeError);
                    }
                },
                JField::N(_) => {
                    return Err(DecodeError);
                },
            }
        } else if chars_eq_str(k, "timestamp") {
            match val {
                JField::N(n) => {
                    if ts.is_none() {
                        ts = Some(*n);
                    } else {
                        return Err(DecodeError);
                    }
                },
                JField::S(_) => {
                    return Err(DecodeError);
                },
            }
        }
        i += 1;
    }
    let tidv = match tid {
        Some(v) => v,
        None => {
            return Err(DecodeError);
        },
    };
    let cidv = match cid {
        Some(v) => v,
        None => {
            return Err(DecodeError);
        },
    };
    let langv = match lang {
        Some(v) => v,
        None => {
            return Err(DecodeError);
        },
    };
    let tsv = match ts {
        Some(v) => v,
        None => {
            return Err(DecodeError);
        },
    };
    let echo = match (ex, num) {
        (Some(e), None) => Echo::Expression(chars_to_string(&e)),
        (None, Some(n)) => Echo::Number(n),
        _ => {
            return Err(DecodeError);
        },
    };
    let outcome = match (res, err) {
        (Some(v), None) => Outcome::Success(chars_to_string(&v)),
        (None, Some(m)) => Outcome::Failure(chars_to_string(&m)),
        _ => {
            return Err(DecodeError);
        },
    };
    Ok(
        ResultRecord {
            task_id: chars_to_string(&tidv),
            client_id: chars_to_string(&cidv),
            echo,
            outcome,
            language: chars_to_string(&langv),
            timestamp: tsv,
        },
    )
}

} // verus!
