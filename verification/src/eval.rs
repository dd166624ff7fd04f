//! The arithmetic evaluator's planning step: normalize the expression and
//! split it at its single binary operator.
//!
//! The evaluator intentionally supports only one binary operation per task,
//! or a bare numeric literal. The scan order is fixed: the first `+` wins;
//! otherwise the first `-`, but only when it is not the leading character —
//! a leading minus is a sign, not an operator, and the scan falls through to
//! the first `*`, then the first `/`; otherwise the whole string is a single
//! literal.

use vstd::prelude::*;
use vstd::string::StringExecFns;
use crate::strutil::{str_to_chars, chars_to_string, chars_subrange};

verus! {

/// Whitespace stripped from the ends of an expression before scanning: the
/// characters with the Unicode `White_Space` property.
pub open spec fn is_blank(c: char) -> bool {
    ||| c == '\t'
    ||| c == '\n'
    ||| c == '\u{b}'
    ||| c == '\u{c}'
    ||| c == '\r'
    ||| c == ' '
    ||| c == '\u{85}'
    ||| c == '\u{a0}'
    ||| c == '\u{1680}'
    ||| ('\u{2000}' <= c && c <= '\u{200a}')
    ||| c == '\u{2028}'
    ||| c == '\u{2029}'
    ||| c == '\u{202f}'
    ||| c == '\u{205f}'
    ||| c == '\u{3000}'
}

/// `s` without its leading blanks.
pub open spec fn trim_start(s: Seq<char>) -> Seq<char>
    decreases s.len(),
{
    if s.len() > 0 && is_blank(s[0]) {
        trim_start(s.drop_first())
    } else {
        s
    }
}

/// `s` without its trailing blanks.
pub open spec fn trim_end(s: Seq<char>) -> Seq<char>
    decreases s.len(),
{
    if s.len() > 0 && is_blank(s.last()) {
        trim_end(s.drop_last())
    } else {
        s
    }
}

/// `s` with every space character removed.
pub open spec fn remove_spaces(s: Seq<char>) -> Seq<char>
    decreases s.len(),
{
    if s.len() == 0 {
        Seq::<char>::empty()
    } else if s.last() == ' ' {
        remove_spaces(s.drop_last())
    } else {
        remove_spaces(s.drop_last()).push(s.last())
    }
}

/// The normalized form of an expression: ends trimmed of whitespace, then
/// every embedded space removed.
pub open spec fn normalize_spec(s: Seq<char>) -> Seq<char> {
    remove_spaces(trim_end(trim_start(s)))
}

/// Whether `c` occurs in `s`.
pub open spec fn has_char(s: Seq<char>, c: char) -> bool {
    exists|i: int| 0 <= i < s.len() && s[i] == c
}

/// `i` is the first occurrence of `c` in `s`.
pub open spec fn found_at(s: Seq<char>, c: char, i: int) -> bool {
    &&& 0 <= i < s.len()
    &&& s[i] == c
    &&& forall|j: int| 0 <= j < i ==> s[j] != c
}

/// The decision of the planner: one binary operation, split at the chosen
/// operator, or the whole normalized string as a bare literal.
#[derive(Debug, Clone, PartialEq, Eq)]
pub enum Plan {
    Add(String, String),
    Sub(String, String),
    Mul(String, String),
    Div(String, String),
    Atom(String),
}

/// The two sides of a binary plan are the text on either side of position `i`.
pub open spec fn split_at(s: Seq<char>, i: int, l: Seq<char>, r: Seq<char>) -> bool {
    &&& l == s.subrange(0, i)
    &&& r == s.subrange(i + 1, s.len() as int)
}

/// The planner's full contract: `p` is what the scan order of the evaluator
/// yields on the normalized form of `s0`.
pub open spec fn plan_ok(s0: Seq<char>, p: Plan) -> bool {
    let s = normalize_spec(s0);
    if has_char(s, '+') {
        match p {
            Plan::Add(l, r) => exists|i: int| found_at(s, '+', i) && split_at(s, i, l@, r@),
            _ => false,
        }
    } else if exists|i: int| found_at(s, '-', i) && i > 0 {
        match p {
            Plan::Sub(l, r) => exists|i: int| found_at(s, '-', i) && split_at(s, i, l@, r@),
            _ => false,
        }
    } else if has_char(s, '*') {
        match p {
            Plan::Mul(l, r) => exists|i: int| found_at(s, '*', i) && split_at(s, i, l@, r@),
            _ => false,
        }
    } else if has_char(s, '/') {
        match p {
            Plan::Div(l, r) => exists|i: int| found_at(s, '/', i) && split_at(s, i, l@, r@),
            _ => false,
        }
    } else {
        match p {
            Plan::Atom(a) => a@ == s,
            _ => false,
        }
    }
}

fn is_blank_exec(c: char) -> (b: bool)
    ensures
        b == is_blank(c),
{
    c == '\t' || c == '\n' || c == '\u{b}' || c == '\u{c}' || c == '\r' || c == ' '
        || c == '\u{85}' || c == '\u{a0}' || c == '\u{1680}'
        || ('\u{2000}' <= c && c <= '\u{200a}') || c == '\u{2028}' || c == '\u{2029}'
        || c == '\u{202f}' || c == '\u{205f}' || c == '\u{3000}'
}

proof fn lemma_trim_start_prefix(s: Seq<char>, k: int)
    requires
        0 <= k <= s.len(),
        forall|j: int| 0 <= j < k ==> is_blank(s[j]),
        k < s.len() ==> !is_blank(s[k]),
    ensures
        trim_start(s) == s.subrange(k, s.len() as int),
    decreases k,
{
    if k == 0 {
        if s.len() > 0 {
            assert(!is_blank(s[0]));
        }
        assert(s.subrange(0, s.len() as int) =~= s);
    } else {
        assert(is_blank(s[0]));
        let t = s.drop_first();
        assert(forall|j: int| 0 <= j < k - 1 ==> is_blank(#[trigger] t[j]));
        lemma_trim_start_prefix(t, k - 1);
        assert(t.subrange(k - 1, t.len() as int) =~= s.subrange(k, s.len() as int));
    }
}

proof fn lemma_trim_end_suffix(s: Seq<char>, k: int)
    requires
        0 <= k <= s.len(),
        forall|j: int| k <= j < s.len() ==> is_blank(s[j]),
        k > 0 ==> !is_blank(s[k - 1]),
    ensures
        trim_end(s) == s.subrange(0, k),
    decreases s.len() - k,
{
    if k == s.len() {
        if s.len() > 0 {
            assert(!is_blank(s.last()));
        }
        assert(s.subrange(0, s.len() as int) =~= s);
    } else {
        assert(is_blank(s.last()));
        let t = s.drop_last();
        lemma_trim_end_suffix(t, k);
        assert(t.subrange(0, k) =~= s.subrange(0, k));
    }
}

/// The normalized form of `expr`, as a character vector.
pub fn normalize(expr: &str) -> (v: Vec<char>)
    ensures
        v@ == normalize_spec(expr@),
{
    let cs = str_to_chars(expr);
    let n = cs.len();
    let mut start: usize = 0;
    while start < n && is_blank_exec(cs[start])
        invariant
            start <= n,
            n == cs@.len(),
            forall|j: int| 0 <= j < start ==> is_blank(cs@[j]),
        decreases n - start,
    {
        start += 1;
    }
    let mut end: usize = n;
    while end > start && is_blank_exec(cs[end - 1])
        invariant
            start <= end <= n,
            n == cs@.len(),
            forall|j: int| end <= j < n ==> is_blank(cs@[j]),
        decreases end,
    {
        end -= 1;
    }
    proof {
        lemma_trim_start_prefix(cs@, start as int);
        let t = cs@.subrange(start as int, n as int);
        if start == n {
            lemma_trim_end_suffix(t, 0);
        } else {
            if end == start {
                assert(!is_blank(cs@[start as int]));
                assert(is_blank(t[0]));
                assert(false);
            }
            lemma_trim_end_suffix(t, end - start);
        }
        assert(trim_end(trim_start(cs@)) == cs@.subrange(start as int, end as int));
    }
    let mut out: Vec<char> = Vec::new();
    let mut i: usize = start;
    while i < end
        invariant
            start <= i <= end <= n,
            n == cs@.len(),
            out@ == remove_spaces(cs@.subrange(start as int, i as int)),
        decreases end - i,
    {
        let c = cs[i];
        proof {
            let cur = cs@.subrange(start as int, i as int);
            let next = cs@.subrange(start as int, i as int + 1);
            assert(next.drop_last() =~= cur);
            assert(next.last() == cs@[i as int]);
        }
        if c != ' ' {
            out.push(c);
        }
        i += 1;
    }
    out
}

/// The position of the first occurrence of `c` in `v`, if any.
pub fn find_first(v: &Vec<char>, c: char) -> (r: Option<usize>)
    ensures
        match r {
            Some(i) => found_at(v@, c, i as int),
            None => !has_char(v@, c),
        },
{
    let mut i: usize = 0;
    while i < v.len()
        invariant
            i <= v@.len(),
            forall|j: int| 0 <= j < i ==> v@[j] != c,
        decreases v@.len() - i,
    {
        if v[i] == c {
            return Some(i);
        }
        i += 1;
    }
    None
}

fn split_chars(v: &Vec<char>, i: usize) -> (r: (String, String))
    requires
        i < v@.len(),
    ensures
        r.0@ == v@.subrange(0, i as int),
        r.1@ == v@.subrange(i + 1, v@.len() as int),
{
    let n = v.len();
    let left = chars_subrange(v, 0, i);
    let right = chars_subrange(v, i + 1, n);
    (chars_to_string(&left), chars_to_string(&right))
}

/// Scans `expr` and decides which single binary operation, if any, it
/// denotes. The result is exactly what `plan_ok` describes.
pub fn plan_expression(expr: &str) -> (p: Plan)
    ensures
        plan_ok(expr@, p),
{
    let v = normalize(expr);
    if let Some(i) = find_first(&v, '+') {
        let (l, r) = split_chars(&v, i);
        return Plan::Add(l, r);
    }
    let minus = find_first(&v, '-');
    if let Some(i) = minus {
        if i > 0 {
            let (l, r) = split_chars(&v, i);
            return Plan::Sub(l, r);
        }
    }
    proof {
        // the first occurrence of '-' is unique, so when it is absent or at
        // the front, no occurrence satisfies the subtraction rule
        assert(forall|j: int, k: int| found_at(v@, '-', j) && found_at(v@, '-', k) ==> j == k);
        if minus is None {
            assert(forall|j: int| !found_at(v@, '-', j)) by {
                assert forall|j: int| !found_at(v@, '-', j) by {
                    if found_at(v@, '-', j) {
                        assert(has_char(v@, '-'));
                    }
                }
            }
        }
    }
    if let Some(i) = find_first(&v, '*') {
        let (l, r) = split_chars(&v, i);
        Plan::Mul(l, r)
    } else if let Some(i) = find_first(&v, '/') {
        let (l, r) = split_chars(&v, i);
        Plan::Div(l, r)
    } else {
        Plan::Atom(chars_to_string(&v))
    }
}

/// A domain failure of the evaluator.
#[derive(Debug, Clone, PartialEq, Eq)]
pub enum EvalError {
    Parse,
    DivisionByZero,
}

impl EvalError {
    /// The human-readable failure reason carried in a published result.
    pub fn message(&self) -> (s: String)
        ensures
            self is Parse ==> s@ == "Parse error"@,
            self is DivisionByZero ==> s@ == "Division by zero"@,
    {
        match self {
            EvalError::Parse => String::from_str("Parse error"),
            EvalError::DivisionByZero => String::from_str("Division by zero"),
        }
    }
}

/// What the numeric kernel reports back about one planned operation: whether
/// each operand parsed as a number, whether a divisor was exactly zero, and
/// the rendered value when the operation was carried out.
pub struct Attempt {
    pub left_ok: bool,
    pub right_ok: bool,
    pub divisor_zero: bool,
    pub value: Option<String>,
}

/// Whether the attempt must carry a value: both operands parsed and, for a
/// division, the divisor was not zero.
pub open spec fn attempt_computed(p: Plan, a: Attempt) -> bool {
    a.left_ok && a.right_ok && !(p is Div && a.divisor_zero)
}

/// Turns the numeric kernel's report on a planned operation into the
/// evaluator's outcome, with the evaluator's error precedence: operand parse
/// failures are reported first, then division by zero.
pub fn finish_eval(p: &Plan, a: Attempt) -> (r: Result<String, EvalError>)
    requires
        attempt_computed(*p, a) ==> a.value is Some,
    ensures
        !a.left_ok || !a.right_ok ==> r == Result::<String, EvalError>::Err(EvalError::Parse),
        a.left_ok && a.right_ok && *p is Div && a.divisor_zero ==> r == Result::<String, EvalError>::Err(
            EvalError::DivisionByZero,
        ),
        attempt_computed(*p, a) ==> r is Ok && r->Ok_0 == a.value->Some_0,
{
    if !a.left_ok || !a.right_ok {
        Err(EvalError::Parse)
    } else if matches!(p, Plan::Div(_, _)) && a.divisor_zero {
        Err(EvalError::DivisionByZero)
    } else {
        match a.value {
            Some(v) => Ok(v),
            None => Err(EvalError::Parse),
        }
    }
}

} // verus!


