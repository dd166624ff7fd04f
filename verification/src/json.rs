//! The task envelope codec: the wire format is a flat JSON object whose
//! values are strings and unsigned integers. Decoding is specified by a
//! recursive reference parser over character sequences; the executable
//! decoder is proved to agree with it exactly. Encoding produces the
//! canonical form (no whitespace, fields in a fixed order) and is proved to
//! be inverted by the decoder.

use vstd::prelude::*;
use vstd::string::StrSliceExecFns;
use crate::strutil::str_to_chars;

verus! {

/// A JSON value of the wire format: a string or an unsigned integer.
pub ghost enum JVal {
    S(Seq<char>),
    N(u64),
}

/// Executable counterpart of `JVal`; the string is held as characters.
pub enum JField {
    S(Vec<char>),
    N(u64),
}

impl View for JField {
    type V = JVal;

    open spec fn view(&self) -> JVal {
        match self {
            JField::S(v) => JVal::S(v@),
            JField::N(n) => JVal::N(*n),
        }
    }
}

/// JSON whitespace.
pub open spec fn is_ws(c: char) -> bool {
    c == ' ' || c == '\t' || c == '\n' || c == '\r'
}

/// A decimal digit.
pub open spec fn is_digit(c: char) -> bool {
    c == '0' || c == '1' || c == '2' || c == '3' || c == '4' || c == '5' || c == '6' || c == '7'
        || c == '8' || c == '9'
}

/// The numeric value of a digit character; zero for any other character.
pub open spec fn digit_val(c: char) -> int {
    if c == '0' { 0 }
    else if c == '1' { 1 }
    else if c == '2' { 2 }
    else if c == '3' { 3 }
    else if c == '4' { 4 }
    else if c == '5' { 5 }
    else if c == '6' { 6 }
    else if c == '7' { 7 }
    else if c == '8' { 8 }
    else if c == '9' { 9 }
    else { 0 }
}

/// The value of a string of decimal digits, most significant first.
pub open spec fn spec_dec_value(s: Seq<char>) -> int
    decreases s.len(),
{
    if s.len() == 0 {
        0
    } else {
        spec_dec_value(s.drop_last()) * 10 + digit_val(s.last())
    }
}

/// The character produced by a short escape sequence, if the escape is
/// recognized.
pub open spec fn unesc_char(c: char) -> Option<char> {
    if c == '"' { Some('"') }
    else if c == '\\' { Some('\\') }
    else if c == '/' { Some('/') }
    else if c == 'n' { Some('\n') }
    else if c == 't' { Some('\t') }
    else if c == 'r' { Some('\r') }
    else if c == 'b' { Some('\u{8}') }
    else if c == 'f' { Some('\u{c}') }
    else { None }
}

/// The first index at or after `i` holding a non-whitespace character.
pub open spec fn sp_ws_end(s: Seq<char>, i: int) -> int
    decreases s.len() - i,
{
    if 0 <= i < s.len() && is_ws(s[i]) {
        sp_ws_end(s, i + 1)
    } else {
        i
    }
}

/// Parses a string body starting just after the opening quote: the decoded
/// content and the index just past the closing quote.
pub open spec fn sp_str_body(s: Seq<char>, i: int) -> Option<(Seq<char>, int)>
    decreases s.len() - i,
{
    if i < 0 || i >= s.len() {
        None
    } else if s[i] == '"' {
        Some((Seq::<char>::empty(), i + 1))
    } else if s[i] == '\\' {
        if i + 1 >= s.len() {
            None
        } else {
            match unesc_char(s[i + 1]) {
                None => None,
                Some(u) => match sp_str_body(s, i + 2) {
                    None => None,
                    Some((t, j)) => Some((seq![u] + t, j)),
                },
            }
        }
    } else {
        match sp_str_body(s, i + 1) {
            None => None,
            Some((t, j)) => Some((seq![s[i]] + t, j)),
        }
    }
}

/// The first index at or after `i` holding a non-digit character.
pub open spec fn sp_digits_end(s: Seq<char>, i: int) -> int
    decreases s.len() - i,
{
    if 0 <= i < s.len() && is_digit(s[i]) {
        sp_digits_end(s, i + 1)
    } else {
        i
    }
}

/// Parses an unsigned integer at `i`: its value and the index just past its
/// digits. Fails when no digit is present, when a multi-digit number starts
/// with a zero, or when the value does not fit in 64 bits.
pub open spec fn sp_num(s: Seq<char>, i: int) -> Option<(int, int)> {
    let j = sp_digits_end(s, i);
    if j == i {
        None
    } else if j > i + 1 && s[i] == '0' {
        None
    } else {
        let val = spec_dec_value(s.subrange(i, j));
        if val > u64::MAX as int {
            None
        } else {
            Some((val, j))
        }
    }
}

/// Parses one `"key": value` member at `i`.
pub open spec fn sp_member(s: Seq<char>, i: int) -> Option<((Seq<char>, JVal), int)> {
    if i < 0 || i >= s.len() || s[i] != '"' {
        None
    } else {
        match sp_str_body(s, i + 1) {
            None => None,
            Some((k, j)) => {
                let a = sp_ws_end(s, j);
                if a >= s.len() || s[a] != ':' {
                    None
                } else {
                    let b = sp_ws_end(s, a + 1);
                    if b >= s.len() {
                        None
                    } else if s[b] == '"' {
                        match sp_str_body(s, b + 1) {
                            None => None,
                            Some((t, c)) => Some(((k, JVal::S(t)), c)),
                        }
                    } else if is_digit(s[b]) {
                        match sp_num(s, b) {
                            None => None,
                            Some((n, c)) => Some(((k, JVal::N(n as u64)), c)),
                        }
                    } else {
                        None
                    }
                }
            },
        }
    }
}

/// Parses a non-empty member list starting at the first member, up to and
/// including the closing brace.
pub open spec fn sp_members(s: Seq<char>, i: int) -> Option<(Seq<(Seq<char>, JVal)>, int)>
    decreases s.len() - i,
{
    match sp_member(s, i) {
        None => None,
        Some((m, j)) => {
            if !(i < j <= s.len()) {
                None
            } else {
                let a = sp_ws_end(s, j);
                if a >= s.len() {
                    None
                } else if s[a] == ',' {
                    let b = sp_ws_end(s, a + 1);
                    if b <= i || b > s.len() {
                        None
                    } else {
                        match sp_members(s, b) {
                            None => None,
                            Some((ms, c)) => Some((seq![m] + ms, c)),
                        }
                    }
                } else if s[a] == '}' {
                    Some((seq![m], a + 1))
                } else {
                    None
                }
            }
        },
    }
}

/// Parses a whole object and requires the input to hold nothing else:
/// the member list, in order of appearance.
pub open spec fn sp_top(s: Seq<char>) -> Option<Seq<(Seq<char>, JVal)>> {
    let i = sp_ws_end(s, 0);
    if i >= s.len() || s[i] != '{' {
        None
    } else {
        let k = sp_ws_end(s, i + 1);
        if k < s.len() && s[k] == '}' {
            if sp_ws_end(s, k + 1) == s.len() {
                Some(Seq::<(Seq<char>, JVal)>::empty())
            } else {
                None
            }
        } else {
            match sp_members(s, k) {
                None => None,
                Some((ms, j)) => {
                    if sp_ws_end(s, j) == s.len() {
                        Some(ms)
                    } else {
                        None
                    }
                },
            }
        }
    }
}

fn is_ws_exec(c: char) -> (b: bool)
    ensures
        b == is_ws(c),
{
    c == ' ' || c == '\t' || c == '\n' || c == '\r'
}

fn is_digit_exec(c: char) -> (b: bool)
    ensures
        b == is_digit(c),
{
    c >= '0' && c <= '9'
}

fn digit_val_exec(c: char) -> (d: u64)
    ensures
        d as int == digit_val(c),
        d < 10,
{
    if c == '0' { 0 }
    else if c == '1' { 1 }
    else if c == '2' { 2 }
    else if c == '3' { 3 }
    else if c == '4' { 4 }
    else if c == '5' { 5 }
    else if c == '6' { 6 }
    else if c == '7' { 7 }
    else if c == '8' { 8 }
    else if c == '9' { 9 }
    else { 0 }
}

fn unesc_char_exec(c: char) -> (r: Option<char>)
    ensures
        r == unesc_char(c),
{
    if c == '"' { Some('"') }
    else if c == '\\' { Some('\\') }
    else if c == '/' { Some('/') }
    else if c == 'n' { Some('\n') }
    else if c == 't' { Some('\t') }
    else if c == 'r' { Some('\r') }
    else if c == 'b' { Some('\u{8}') }
    else if c == 'f' { Some('\u{c}') }
    else { None }
}

#[verifier::loop_isolation(false)]
fn skip_ws(v: &Vec<char>, start: usize) -> (r: usize)
    requires
        start <= v@.len(),
    ensures
        r as int == sp_ws_end(v@, start as int),
        start <= r <= v@.len(),
{
    let mut i = start;
    while i < v.len() && is_ws_exec(v[i])
        invariant
            start <= i <= v@.len(),
            sp_ws_end(v@, start as int) == sp_ws_end(v@, i as int),
        decreases v@.len() - i,
    {
        i += 1;
    }
    i
}

#[verifier::loop_isolation(false)]
fn parse_string_body(v: &Vec<char>, start: usize) -> (r: Option<(Vec<char>, usize)>)
    requires
        start <= v@.len(),
    ensures
        match r {
            Some((t, j)) => sp_str_body(v@, start as int) == Some((t@, j as int)) && start < j
                <= v@.len(),
            None => sp_str_body(v@, start as int) is None,
        },
{
    let ghost s = v@;
    let mut acc: Vec<char> = Vec::new();
    let mut i = start;
    loop
        invariant
            start <= i <= s.len(),
            v@ == s,
            sp_str_body(s, start as int) == match sp_str_body(s, i as int) {
                Some((t, j)) => Some((acc@ + t, j)),
                None => None::<(Seq<char>, int)>,
            },
        decreases s.len() - i,
    {
        if i >= v.len() {
            return None;
        }
        let c = v[i];
        if c == '"' {
            proof {
                assert(acc@ + Seq::<char>::empty() =~= acc@);
            }
            return Some((acc, i + 1));
        } else if c == '\\' {
            if i + 1 >= v.len() {
                return None;
            }
            match unesc_char_exec(v[i + 1]) {
                None => {
                    return None;
                },
                Some(u) => {
                    proof {
                        if sp_str_body(s, i as int + 2) is Some {
                            let (t, j) = sp_str_body(s, i as int + 2)->Some_0;
                            assert(acc@ + (seq![u] + t) =~= acc@.push(u) + t);
                        }
                    }
                    acc.push(u);
                    i += 2;
                },
            }
        } else {
            proof {
                if sp_str_body(s, i as int + 1) is Some {
                    let (t, j) = sp_str_body(s, i as int + 1)->Some_0;
                    assert(acc@ + (seq![c] + t) =~= acc@.push(c) + t);
                }
            }
            acc.push(c);
            i += 1;
        }
    }
}

proof fn lemma_dec_value_nonneg(s: Seq<char>)
    ensures
        spec_dec_value(s) >= 0,
    decreases s.len(),
{
    if s.len() > 0 {
        lemma_dec_value_nonneg(s.drop_last());
    }
}

proof fn lemma_dec_value_extend(a: Seq<char>, b: Seq<char>)
    ensures
        spec_dec_value(a + b) >= spec_dec_value(a),
    decreases b.len(),
{
    if b.len() == 0 {
        assert(a + b =~= a);
    } else {
        lemma_dec_value_extend(a, b.drop_last());
        assert((a + b).drop_last() =~= a + b.drop_last());
        lemma_dec_value_nonneg(a + b.drop_last());
        assert(spec_dec_value(a + b) == spec_dec_value(a + b.drop_last()) * 10 + digit_val(
            (a + b).last(),
        ));
        assert(spec_dec_value(a + b.drop_last()) * 10 >= spec_dec_value(a + b.drop_last()));
    }
}

#[verifier::loop_isolation(false)]
fn parse_u64_at(v: &Vec<char>, start: usize) -> (r: Option<(u64, usize)>)
    requires
        start <= v@.len(),
    ensures
        match r {
            Some((n, j)) => sp_num(v@, start as int) == Some((n as int, j as int)) && start < j
                <= v@.len(),
            None => sp_num(v@, start as int) is None,
        },
{
    let ghost s = v@;
    let mut j = start;
    while j < v.len() && is_digit_exec(v[j])
        invariant
            start <= j <= s.len(),
            sp_digits_end(s, start as int) == sp_digits_end(s, j as int),
            forall|t: int| start <= t < j ==> is_digit(s[t]),
        decreases s.len() - j,
    {
        j += 1;
    }
    proof {
        assert(sp_digits_end(s, start as int) == j as int);
    }
    if j == start {
        return None;
    }
    if j > start + 1 && v[start] == '0' {
        return None;
    }
    let mut acc: u64 = 0;
    let mut k = start;
    while k < j
        invariant
            start <= k <= j <= s.len(),
            acc as int == spec_dec_value(s.subrange(start as int, k as int)),
            forall|t: int| start <= t < j ==> is_digit(s[t]),
        decreases j - k,
    {
        let d = digit_val_exec(v[k]);
        proof {
            let cur = s.subrange(start as int, k as int);
            let next = s.subrange(start as int, k as int + 1);
            assert(next.drop_last() =~= cur);
            assert(next.last() == s[k as int]);
        }
        let m = match acc.checked_mul(10) {
            Some(m) => m,
            None => {
                proof {
                    lemma_overflow_means_none(s, start as int, k as int, j as int);
                }
                return None;
            },
        };
        let a2 = match m.checked_add(d) {
            Some(a2) => a2,
            None => {
                proof {
                    lemma_overflow_means_none(s, start as int, k as int, j as int);
                }
                return None;
            },
        };
        acc = a2;
        k += 1;
    }
    Some((acc, j))
}

/// If the value of the digits up to `k + 1` already exceeds `u64::MAX`, the
/// whole digit run does too, so the number fails to parse.
proof fn lemma_overflow_means_none(s: Seq<char>, start: int, k: int, j: int)
    requires
        0 <= start <= k < j <= s.len(),
        spec_dec_value(s.subrange(start, k)) * 10 + digit_val(s[k]) > u64::MAX as int,
        sp_digits_end(s, start) == j,
    ensures
        sp_num(s, start) is None,
{
    let a = s.subrange(start, k + 1);
    let b = s.subrange(k + 1, j);
    assert(a.drop_last() =~= s.subrange(start, k));
    assert(a.last() == s[k]);
    assert(spec_dec_value(a) > u64::MAX as int);
    lemma_dec_value_extend(a, b);
    assert(a + b =~= s.subrange(start, j));
}

#[verifier::loop_isolation(false)]
fn parse_member(v: &Vec<char>, start: usize) -> (r: Option<((Vec<char>, JField), usize)>)
    requires
        start <= v@.len(),
    ensures
        match r {
            Some((m, j)) => sp_member(v@, start as int) == Some(((m.0@, m.1@), j as int)) && start
                < j <= v@.len(),
            None => sp_member(v@, start as int) is None,
        },
{
    if start >= v.len() || v[start] != '"' {
        return None;
    }
    let (k, j) = match parse_string_body(v, start + 1) {
        Some(p) => p,
        None => {
            return None;
        },
    };
    let a = skip_ws(v, j);
    if a >= v.len() || v[a] != ':' {
        return None;
    }
    let b = skip_ws(v, a + 1);
    if b >= v.len() {
        return None;
    }
    if v[b] == '"' {
        match parse_string_body(v, b + 1) {
            Some((t, c)) => Some(((k, JField::S(t)), c)),
            None => None,
        }
    } else if is_digit_exec(v[b]) {
        match parse_u64_at(v, b) {
            Some((n, c)) => Some(((k, JField::N(n)), c)),
            None => None,
        }
    } else {
        None
    }
}

/// The member list of `ms`, viewed at the specification level.
pub open spec fn mview(ms: Seq<(Vec<char>, JField)>) -> Seq<(Seq<char>, JVal)> {
    ms.map_values(|p: (Vec<char>, JField)| (p.0@, p.1@))
}

#[verifier::loop_isolation(false)]
fn parse_members(v: &Vec<char>, start: usize) -> (r: Option<(Vec<(Vec<char>, JField)>, usize)>)
    requires
        start <= v@.len(),
    ensures
        match r {
            Some((ms, j)) => sp_members(v@, start as int) == Some((mview(ms@), j as int)) && j
                <= v@.len(),
            None => sp_members(v@, start as int) is None,
        },
{
    let ghost s = v@;
    let mut acc: Vec<(Vec<char>, JField)> = Vec::new();
    let mut i = start;
    loop
        invariant
            start <= i <= s.len(),
            v@ == s,
            sp_members(s, start as int) == match sp_members(s, i as int) {
                Some((ms, j)) => Some((mview(acc@) + ms, j)),
                None => None::<(Seq<(Seq<char>, JVal)>, int)>,
            },
        decreases s.len() - i,
    {
        let m = match parse_member(v, i) {
            Some(m) => m,
            None => {
                return None;
            },
        };
        let j = m.1;
        let a = skip_ws(v, j);
        if a >= v.len() {
            proof {
                assert(sp_members(s, i as int) is None);
            }
            return None;
        }
        let ghost pair = (m.0.0@, m.0.1@);
        if v[a] == ',' {
            let b = skip_ws(v, a + 1);
            proof {
                assert(b > a);
                if sp_members(s, b as int) is Some {
                    let (ms2, c2) = sp_members(s, b as int)->Some_0;
                    assert(sp_members(s, i as int) == Some((seq![pair] + ms2, c2)));
                    assert(mview(acc@.push(m.0)) =~= mview(acc@).push(pair));
                    assert(mview(acc@) + (seq![pair] + ms2) =~= mview(acc@.push(m.0)) + ms2);
                }
            }
            acc.push(m.0);
            i = b;
        } else if v[a] == '}' {
            proof {
                assert(sp_members(s, i as int) == Some((seq![pair], a as int + 1)));
                assert(mview(acc@.push(m.0)) =~= mview(acc@).push(pair));
                assert(mview(acc@) + seq![pair] =~= mview(acc@.push(m.0)));
            }
            acc.push(m.0);
            return Some((acc, a + 1));
        } else {
            return None;
        }
    }
}

/// Parses the whole payload into its member list, demanding that nothing but
/// whitespace surrounds the object.
pub fn parse_top(payload: &str) -> (r: Option<Vec<(Vec<char>, JField)>>)
    ensures
        match r {
            Some(ms) => sp_top(payload@) == Some(mview(ms@)),
            None => sp_top(payload@) is None,
        },
{
    let v = str_to_chars(payload);
    let i = skip_ws(&v, 0);
    if i >= v.len() || v[i] != '{' {
        return None;
    }
    let k = skip_ws(&v, i + 1);
    if k < v.len() && v[k] == '}' {
        if skip_ws(&v, k + 1) == v.len() {
            let empty: Vec<(Vec<char>, JField)> = Vec::new();
            proof {
                assert(mview(Seq::<(Vec<char>, JField)>::empty())
                    =~= Seq::<(Seq<char>, JVal)>::empty());
            }
            return Some(empty);
        } else {
            return None;
        }
    }
    let (ms, j) = match parse_members(&v, k) {
        Some(p) => p,
        None => {
            return None;
        },
    };
    if skip_ws(&v, j) == v.len() {
        Some(ms)
    } else {
        None
    }
}

} // verus!
