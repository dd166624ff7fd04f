//! Character-level string helpers: conversion between `String` and
//! `Vec<char>`, and decimal rendering of unsigned integers.

use vstd::prelude::*;
use vstd::string::StrSliceExecFns;
use vstd::string::StringExecFns;

verus! {

/// Relies on `String::push`: appends the given character to the end of the
/// string.
pub assume_specification[ String::push ](s: &mut String, c: char)
    ensures
        final(s)@ == old(s)@.push(c),
;

/// The characters of `s` as a vector, for constant-time indexing.
pub fn str_to_chars(s: &str) -> (v: Vec<char>)
    ensures
        v@ == s@,
{
    let n: usize = s.unicode_len();
    let mut v: Vec<char> = Vec::new();
    let mut i: usize = 0;
    while i < n
        invariant
            i <= n,
            n == s@.len(),
            v@ == s@.subrange(0, i as int),
        decreases n - i,
    {
        let c = s.get_char(i);
        v.push(c);
        i += 1;
        proof {
            assert(v@ =~= s@.subrange(0, i as int));
        }
    }
    proof {
        assert(v@ =~= s@);
    }
    v
}

/// A `String` holding exactly the characters of `v`.
pub fn chars_to_string(v: &Vec<char>) -> (s: String)
    ensures
        s@ == v@,
{
    let mut s = String::new();
    let mut i: usize = 0;
    while i < v.len()
        invariant
            i <= v@.len(),
            s@ == v@.subrange(0, i as int),
        decreases v@.len() - i,
    {
        s.push(v[i]);
        i += 1;
        proof {
            assert(s@ =~= v@.subrange(0, i as int));
        }
    }
    proof {
        assert(s@ =~= v@);
    }
    s
}

/// The characters of `v` from `from` (inclusive) to `to` (exclusive).
pub fn chars_subrange(v: &Vec<char>, from: usize, to: usize) -> (r: Vec<char>)
    requires
        from <= to <= v@.len(),
    ensures
        r@ == v@.subrange(from as int, to as int),
{
    let mut r: Vec<char> = Vec::new();
    let mut i: usize = from;
    while i < to
        invariant
            from <= i <= to <= v@.len(),
            r@ == v@.subrange(from as int, i as int),
        decreases to - i,
    {
        r.push(v[i]);
        i += 1;
        proof {
            assert(r@ =~= v@.subrange(from as int, i as int));
        }
    }
    r
}

/// The character for a single decimal digit.
pub open spec fn digit_char(d: int) -> char {
    if d == 0 { '0' }
    else if d == 1 { '1' }
    else if d == 2 { '2' }
    else if d == 3 { '3' }
    else if d == 4 { '4' }
    else if d == 5 { '5' }
    else if d == 6 { '6' }
    else if d == 7 { '7' }
    else if d == 8 { '8' }
    else { '9' }
}

/// The decimal digits of `n`, most significant first; empty for `n <= 0`.
pub open spec fn spec_u64_digits(n: int) -> Seq<char>
    decreases n,
{
    if n <= 0 {
        Seq::<char>::empty()
    } else {
        spec_u64_digits(n / 10).push(digit_char(n % 10))
    }
}

/// The canonical decimal rendering of `n`: `"0"` for zero, else the digits of
/// `n` with no leading zero.
pub open spec fn spec_u64_str(n: int) -> Seq<char> {
    if n == 0 { seq!['0'] } else { spec_u64_digits(n) }
}

fn digit_char_exec(d: u64) -> (c: char)
    requires
        d < 10,
    ensures
        c == digit_char(d as int),
{
    if d == 0 { '0' }
    else if d == 1 { '1' }
    else if d == 2 { '2' }
    else if d == 3 { '3' }
    else if d == 4 { '4' }
    else if d == 5 { '5' }
    else if d == 6 { '6' }
    else if d == 7 { '7' }
    else if d == 8 { '8' }
    else { '9' }
}

fn u64_digits(n: u64) -> (s: String)
    ensures
        s@ == spec_u64_digits(n as int),
    decreases n,
{
    if n == 0 {
        String::new()
    } else {
        let mut s = u64_digits(n / 10);
        s.push(digit_char_exec(n % 10));
        s
    }
}

/// Renders `n` in decimal.
pub fn u64_to_decimal(n: u64) -> (s: String)
    ensures
        s@ == spec_u64_str(n as int),
{
    if n == 0 {
        let s = String::from_str("0");
        proof {
            reveal_strlit("0");
            assert(s@ =~= spec_u64_str(0));
        }
        s
    } else {
        u64_digits(n)
    }
}

} // verus!
