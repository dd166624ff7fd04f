//! The codec round trip: decoding a canonically encoded result record gives
//! back exactly the record, every field preserved and the mutual exclusivity
//! of the success value and the failure reason kept by construction.

use vstd::prelude::*;
use crate::json::{JVal, is_ws, is_digit, sp_ws_end, sp_str_body, sp_digits_end, spec_dec_value,
    sp_num, sp_member, sp_members, sp_top};
use crate::record::{ResultView, EchoView, OutcomeView};
use crate::render::{esc, esc_char, esc_code, render_val, render_member, render_members,
    render_obj, result_members, spec_encode_result};
use crate::codec::{sp_fill_result, spec_decode_result};
use crate::strutil::{digit_char, spec_u64_digits, spec_u64_str};
use vstd::arithmetic::div_mod::lemma_fundamental_div_mod;

verus! {

/// A key that needs no escaping on the wire.
pub open spec fn key_wf(k: Seq<char>) -> bool {
    forall|t: int| 0 <= t < k.len() ==> esc_code(#[trigger] k[t]) is None
}

proof fn lemma_points_to_subrange(s: Seq<char>, i: int, x: Seq<char>)
    requires
        0 <= i,
        i + x.len() <= s.len(),
        forall|t: int| 0 <= t < x.len() ==> s[i + t] == #[trigger] x[t],
    ensures
        s.subrange(i, i + x.len()) == x,
{
    assert(s.subrange(i, i + x.len()) =~= x);
}

proof fn lemma_subrange_to_points(s: Seq<char>, i: int, x: Seq<char>)
    requires
        0 <= i,
        i + x.len() <= s.len(),
        s.subrange(i, i + x.len()) == x,
    ensures
        forall|t: int| 0 <= t < x.len() ==> s[i + t] == #[trigger] x[t],
{
    assert forall|t: int| 0 <= t < x.len() implies s[i + t] == #[trigger] x[t] by {
        assert(x[t] == s.subrange(i, i + x.len())[t]);
    }
}

proof fn lemma_esc_id(k: Seq<char>)
    requires
        key_wf(k),
    ensures
        esc(k) == k,
    decreases k.len(),
{
    if k.len() == 0 {
        assert(esc(k) =~= k);
    } else {
        assert(key_wf(k.drop_first()));
        lemma_esc_id(k.drop_first());
        assert(esc_char(k[0]) == seq![k[0]]);
        assert(seq![k[0]] + k.drop_first() =~= k);
    }
}

proof fn lemma_str_body_encodes(s: Seq<char>, i: int, content: Seq<char>)
    requires
        0 <= i,
        i + esc(content).len() + 1 <= s.len(),
        s.subrange(i, i + esc(content).len() + 1) == esc(content).push('"'),
    ensures
        sp_str_body(s, i) == Some((content, i + esc(content).len() + 1)),
    decreases content.len(),
{
    let ec = esc(content);
    let x = ec.push('"');
    lemma_subrange_to_points(s, i, x);
    if content.len() == 0 {
        assert(ec =~= Seq::<char>::empty());
        assert(s[i + 0] == x[0]);
        assert(x[0] == '"');
        assert(sp_str_body(s, i) == Some((Seq::<char>::empty(), i + 1)));
        assert(content =~= Seq::<char>::empty());
    } else {
        let c = content[0];
        let rest = content.drop_first();
        assert(ec == esc_char(c) + esc(rest));
        let er = esc(rest);
        if esc_code(c) is Some {
            let e = esc_code(c)->Some_0;
            assert(esc_char(c) == seq!['\\', e]);
            assert(ec.len() == 2 + er.len());
            assert(s[i + 0] == x[0]);
            assert(s[i + 1] == x[1]);
            assert(x[0] == ec[0] && ec[0] == '\\');
            assert(x[1] == ec[1] && ec[1] == e);
            assert(crate::json::unesc_char(e) == Some(c));
            assert forall|t: int| 0 <= t < er.len() + 1 implies s[i + 2 + t] == #[trigger] er.push(
                '"',
            )[t] by {
                assert(s[i + (2 + t)] == x[2 + t]);
                if t < er.len() {
                    assert(x[2 + t] == ec[2 + t]);
                    assert(ec[2 + t] == er[t]);
                } else {
                    assert(x[2 + t] == '"');
                }
            }
            lemma_points_to_subrange(s, i + 2, er.push('"'));
            lemma_str_body_encodes(s, i + 2, rest);
            assert(s[i] == '\\' && s[i] != '"');
            assert(sp_str_body(s, i) == Some((seq![c] + rest, i + ec.len() + 1)));
            assert(seq![c] + rest =~= content);
        } else {
            assert(esc_char(c) == seq![c]);
            assert(c != '"' && c != '\\');
            assert(ec.len() == 1 + er.len());
            assert(s[i + 0] == x[0]);
            assert(x[0] == ec[0] && ec[0] == c);
            assert forall|t: int| 0 <= t < er.len() + 1 implies s[i + 1 + t] == #[trigger] er.push(
                '"',
            )[t] by {
                assert(s[i + (1 + t)] == x[1 + t]);
                if t < er.len() {
                    assert(x[1 + t] == ec[1 + t]);
                    assert(ec[1 + t] == er[t]);
                } else {
                    assert(x[1 + t] == '"');
                }
            }
            lemma_points_to_subrange(s, i + 1, er.push('"'));
            lemma_str_body_encodes(s, i + 1, rest);
            assert(sp_str_body(s, i) == Some((seq![c] + rest, i + ec.len() + 1)));
            assert(seq![c] + rest =~= content);
        }
    }
}

proof fn lemma_u64_digits_are_digits(n: int)
    ensures
        forall|t: int| 0 <= t < spec_u64_digits(n).len() ==> is_digit(
            #[trigger] spec_u64_digits(n)[t],
        ),
    decreases n,
{
    if n > 0 {
        lemma_u64_digits_are_digits(n / 10);
        let d = spec_u64_digits(n);
        let p = spec_u64_digits(n / 10);
        assert(d == p.push(digit_char(n % 10)));
        assert(is_digit(digit_char(n % 10)));
        assert forall|t: int| 0 <= t < d.len() implies is_digit(#[trigger] d[t]) by {
            if t < p.len() {
                assert(d[t] == p[t]);
            } else {
                assert(d[t] == digit_char(n % 10));
            }
        }
    }
}

proof fn lemma_u64_str_digits(n: int)
    requires
        n >= 0,
    ensures
        spec_u64_str(n).len() >= 1,
        forall|t: int| 0 <= t < spec_u64_str(n).len() ==> is_digit(#[trigger] spec_u64_str(n)[t]),
{
    lemma_u64_digits_are_digits(n);
    if n == 0 {
        assert(is_digit('0'));
        assert(spec_u64_str(n) == seq!['0']);
        assert(spec_u64_str(n)[0] == '0');
    } else {
        assert(spec_u64_digits(n).len() >= 1);
    }
}

proof fn lemma_digits_end_at(s: Seq<char>, i: int, j: int)
    requires
        0 <= i <= j <= s.len(),
        forall|t: int| i <= t < j ==> is_digit(#[trigger] s[t]),
        j == s.len() || !is_digit(s[j]),
    ensures
        sp_digits_end(s, i) == j,
    decreases j - i,
{
    if i < j {
        lemma_digits_end_at(s, i + 1, j);
    }
}

proof fn lemma_dec_value_of_digits(n: int)
    requires
        n >= 0,
    ensures
        spec_dec_value(spec_u64_digits(n)) == n,
    decreases n,
{
    if n == 0 {
        assert(spec_u64_digits(0) =~= Seq::<char>::empty());
    } else {
        lemma_dec_value_of_digits(n / 10);
        let d = spec_u64_digits(n);
        assert(d == spec_u64_digits(n / 10).push(digit_char(n % 10)));
        assert(d.drop_last() =~= spec_u64_digits(n / 10));
        assert(d.last() == digit_char(n % 10));
        assert(crate::json::digit_val(digit_char(n % 10)) == n % 10);
        lemma_fundamental_div_mod(n, 10);
    }
}

proof fn lemma_digits_no_leading_zero(n: int)
    requires
        n >= 1,
    ensures
        spec_u64_digits(n).len() >= 1,
        spec_u64_digits(n)[0] != '0',
    decreases n,
{
    if n < 10 {
        assert(spec_u64_digits(n / 10) =~= Seq::<char>::empty());
        assert(spec_u64_digits(n) == Seq::<char>::empty().push(digit_char(n % 10)));
        assert(n % 10 == n);
        assert(digit_char(n) != '0');
    } else {
        lemma_digits_no_leading_zero(n / 10);
        assert(spec_u64_digits(n) == spec_u64_digits(n / 10).push(digit_char(n % 10)));
        assert(spec_u64_digits(n)[0] == spec_u64_digits(n / 10)[0]);
    }
}

proof fn lemma_num_encodes(s: Seq<char>, i: int, n: u64)
    requires
        0 <= i,
        i + spec_u64_str(n as int).len() <= s.len(),
        s.subrange(i, i + spec_u64_str(n as int).len()) == spec_u64_str(n as int),
        i + spec_u64_str(n as int).len() == s.len() || !is_digit(
            s[i + spec_u64_str(n as int).len()],
        ),
    ensures
        sp_num(s, i) == Some((n as int, i + spec_u64_str(n as int).len())),
{
    let d = spec_u64_str(n as int);
    let j = i + d.len();
    lemma_u64_str_digits(n as int);
    lemma_subrange_to_points(s, i, d);
    assert forall|t: int| i <= t < j implies is_digit(#[trigger] s[t]) by {
        let u = t - i;
        assert(s[i + u] == d[u]);
        assert(is_digit(d[u]));
    }
    lemma_digits_end_at(s, i, j);
    assert(s.subrange(i, j) == d);
    if d.len() > 1 {
        assert(n >= 1) by {
            if n == 0 {
                assert(d == seq!['0']);
            }
        }
        lemma_digits_no_leading_zero(n as int);
        assert(s[i + 0] == d[0]);
        assert(s[i] != '0');
    }
    if n == 0 {
        assert(d == seq!['0']);
        assert(d.drop_last() =~= Seq::<char>::empty());
        assert(spec_dec_value(d) == spec_dec_value(d.drop_last()) * 10 + crate::json::digit_val(
            d.last(),
        ));
    } else {
        lemma_dec_value_of_digits(n as int);
    }
    assert(spec_dec_value(s.subrange(i, j)) == n as int);
}

proof fn lemma_member_encodes(s: Seq<char>, i: int, m: (Seq<char>, JVal))
    requires
        0 <= i,
        key_wf(m.0),
        i + render_member(m).len() < s.len(),
        s.subrange(i, i + render_member(m).len()) == render_member(m),
        s[i + render_member(m).len()] == ',' || s[i + render_member(m).len()] == '}',
    ensures
        sp_member(s, i) == Some((m, i + render_member(m).len())),
{
    let rm = render_member(m);
    let k = m.0;
    let rv = render_val(m.1);
    let kl = k.len() as int;
    assert(rm == seq!['"'] + k + seq!['"', ':'] + rv);
    assert(rm.len() == kl + 3 + rv.len());
    lemma_subrange_to_points(s, i, rm);
    assert(s[i + 0] == rm[0]);
    assert(rm[0] == '"');
    lemma_esc_id(k);
    assert forall|t: int| 0 <= t < kl + 1 implies s[i + 1 + t] == #[trigger] k.push('"')[t] by {
        assert(s[i + (1 + t)] == rm[1 + t]);
        if t < kl {
            assert(rm[1 + t] == k[t]);
        } else {
            assert(rm[1 + t] == '"');
        }
    }
    lemma_points_to_subrange(s, i + 1, k.push('"'));
    assert(esc(k).push('"') == k.push('"'));
    assert(esc(k).len() == kl);
    lemma_str_body_encodes(s, i + 1, k);
    let j = i + 1 + kl + 1;
    assert(sp_str_body(s, i + 1) == Some((k, j)));
    assert(s[i + (kl + 2)] == rm[kl + 2]);
    assert(rm[kl + 2] == ':');
    assert(s[j] == ':');
    assert(!is_ws(':'));
    assert(sp_ws_end(s, j) == j);
    let b = j + 1;
    match m.1 {
        JVal::S(t) => {
            let et = esc(t);
            assert(rv == seq!['"'] + et + seq!['"']);
            assert(rv.len() == et.len() + 2);
            assert(s[i + (kl + 3)] == rm[kl + 3]);
            assert(rm[kl + 3] == rv[0]);
            assert(rv[0] == '"');
            assert(s[b] == '"');
            assert(!is_ws('"'));
            assert(sp_ws_end(s, b) == b);
            let el = et.len() as int;
            assert forall|x: int| 0 <= x < el + 1 implies s[b + 1 + x] == #[trigger] et.push(
                '"',
            )[x] by {
                assert(s[i + (kl + 4 + x)] == rm[kl + 4 + x]);
                assert(rm[kl + 4 + x] == rv[1 + x]);
                if x < el {
                    assert(rv[1 + x] == et[x]);
                } else {
                    assert(rv[1 + x] == '"');
                }
            }
            lemma_points_to_subrange(s, b + 1, et.push('"'));
            lemma_str_body_encodes(s, b + 1, t);
            assert(sp_str_body(s, b + 1) == Some((t, b + 1 + el + 1)));
            assert(b + 1 + el + 1 == i + rm.len());
        },
        JVal::N(n) => {
            let d = spec_u64_str(n as int);
            assert(rv == d);
            lemma_u64_str_digits(n as int);
            assert forall|x: int| 0 <= x < d.len() implies s[b + x] == #[trigger] d[x] by {
                assert(s[i + (kl + 3 + x)] == rm[kl + 3 + x]);
                assert(rm[kl + 3 + x] == rv[x]);
            }
            assert(s[b + 0] == d[0]);
            assert(is_digit(d[0]));
            assert(is_digit(s[b]));
            assert(!is_ws(s[b]));
            assert(s[b] != '"');
            assert(sp_ws_end(s, b) == b);
            lemma_points_to_subrange(s, b, d);
            assert(b + d.len() == i + rm.len());
            assert(!is_digit(','));
            assert(!is_digit('}'));
            lemma_num_encodes(s, b, n);
            assert(sp_num(s, b) == Some((n as int, i + rm.len())));
        },
    }
}

proof fn lemma_members_encode(s: Seq<char>, i: int, ms: Seq<(Seq<char>, JVal)>)
    requires
        0 <= i,
        ms.len() >= 1,
        forall|t: int| 0 <= t < ms.len() ==> key_wf(#[trigger] ms[t].0),
        i + render_members(ms).len() + 1 <= s.len(),
        s.subrange(i, i + render_members(ms).len() + 1) == render_members(ms).push('}'),
    ensures
        sp_members(s, i) == Some((ms, i + render_members(ms).len() + 1)),
    decreases ms.len(),
{
    let rs = render_members(ms);
    let x = rs.push('}');
    lemma_subrange_to_points(s, i, x);
    if ms.len() == 1 {
        let rm = render_member(ms[0]);
        assert(rs == rm);
        assert forall|t: int| 0 <= t < rm.len() implies s[i + t] == #[trigger] rm[t] by {
            assert(s[i + t] == x[t]);
            assert(x[t] == rs[t]);
        }
        lemma_points_to_subrange(s, i, rm);
        assert(s[i + rm.len()] == x[rm.len() as int]);
        assert(x[rm.len() as int] == '}');
        lemma_member_encodes(s, i, ms[0]);
        let a = i + rm.len() as int;
        assert(!is_ws('}'));
        assert(sp_ws_end(s, a) == a);
        assert(sp_members(s, i) == Some((seq![ms[0]], a + 1)));
        assert(seq![ms[0]] =~= ms);
    } else {
        let rm = render_member(ms[0]);
        let rml = rm.len() as int;
        let rest = ms.drop_first();
        let rr = render_members(rest);
        assert(rs == rm + seq![','] + rr);
        assert(rs.len() == rml + 1 + rr.len());
        assert forall|t: int| 0 <= t < rml implies s[i + t] == #[trigger] rm[t] by {
            assert(s[i + t] == x[t]);
            assert(x[t] == rs[t]);
            assert(rs[t] == rm[t]);
        }
        lemma_points_to_subrange(s, i, rm);
        assert(s[i + rml] == x[rml]);
        assert(x[rml] == rs[rml]);
        assert(rs[rml] == ',');
        lemma_member_encodes(s, i, ms[0]);
        let a = i + rml;
        assert(!is_ws(','));
        assert(sp_ws_end(s, a) == a);
        let b = a + 1;
        assert(rest.len() >= 1);
        assert(rr.len() >= 1 && rr[0] == render_member(rest[0])[0]) by {
            if rest.len() == 1 {
                assert(rr == render_member(rest[0]));
                assert(render_member(rest[0]).len() >= 1);
            } else {
                assert(rr == render_member(rest[0]) + seq![','] + render_members(
                    rest.drop_first(),
                ));
                assert(render_member(rest[0]).len() >= 1);
            }
        }
        assert(render_member(rest[0])[0] == '"');
        assert forall|t: int| 0 <= t < rr.len() + 1 implies s[b + t] == #[trigger] rr.push(
            '}',
        )[t] by {
            assert(s[i + (rml + 1 + t)] == x[rml + 1 + t]);
            if t < rr.len() {
                assert(x[rml + 1 + t] == rs[rml + 1 + t]);
                assert(rs[rml + 1 + t] == rr[t]);
            } else {
                assert(x[rml + 1 + t] == '}');
            }
        }
        lemma_points_to_subrange(s, b, rr.push('}'));
        assert(s[b + 0] == rr.push('}')[0]);
        assert(s[b] == '"');
        assert(!is_ws('"'));
        assert(sp_ws_end(s, b) == b);
        assert(forall|t: int| 0 <= t < rest.len() ==> key_wf(#[trigger] rest[t].0)) by {
            assert(forall|t: int| 0 <= t < rest.len() ==> #[trigger] rest[t] == ms[t + 1]);
        }
        lemma_members_encode(s, b, rest);
        assert(sp_members(s, b) == Some((rest, b + rr.len() + 1)));
        assert(b > i);
        assert(b <= s.len());
        assert(sp_members(s, i) == Some((seq![ms[0]] + rest, b + rr.len() + 1)));
        assert(seq![ms[0]] + rest =~= ms);
        assert(b + rr.len() + 1 == i + rs.len() + 1);
    }
}

proof fn lemma_top_encode(ms: Seq<(Seq<char>, JVal)>)
    requires
        ms.len() >= 1,
        forall|t: int| 0 <= t < ms.len() ==> key_wf(#[trigger] ms[t].0),
    ensures
        sp_top(render_obj(ms)) == Some(ms),
{
    let s = render_obj(ms);
    let rs = render_members(ms);
    assert(s == seq!['{'] + rs + seq!['}']);
    assert(s.len() == rs.len() + 2);
    assert(s[0] == '{');
    assert(!is_ws('{'));
    assert(sp_ws_end(s, 0) == 0);
    assert(rs.len() >= 1 && rs[0] == render_member(ms[0])[0]) by {
        if ms.len() == 1 {
            assert(rs == render_member(ms[0]));
            assert(render_member(ms[0]).len() >= 1);
        } else {
            assert(rs == render_member(ms[0]) + seq![','] + render_members(ms.drop_first()));
            assert(render_member(ms[0]).len() >= 1);
        }
    }
    assert(render_member(ms[0])[0] == '"');
    assert(s[1] == rs[0]);
    assert(s[1] == '"');
    assert(!is_ws('"'));
    assert(sp_ws_end(s, 1) == 1);
    assert forall|t: int| 0 <= t < rs.len() + 1 implies s[1 + t] == #[trigger] rs.push('}')[t] by {
        if t < rs.len() {
            assert(s[1 + t] == rs[t]);
        } else {
            assert(s[1 + t] == '}');
        }
    }
    lemma_points_to_subrange(s, 1, rs.push('}'));
    lemma_members_encode(s, 1, ms);
    assert(sp_members(s, 1) == Some((ms, s.len() as int)));
    assert(sp_ws_end(s, s.len() as int) == s.len());
}

/// The general codec inversion: any result record, decoded from its own
/// canonical encoding, comes back unchanged — every field is preserved, and
/// exactly one of the success value and the failure reason is present, as the
/// record's own outcome dictates.
pub proof fn lemma_result_round_trip(v: ResultView)
    ensures
        spec_decode_result(spec_encode_result(v)) == Some(v),
{
    reveal_strlit("taskId");
    reveal_strlit("clientId");
    reveal_strlit("expression");
    reveal_strlit("number");
    reveal_strlit("result");
    reveal_strlit("error");
    reveal_strlit("language");
    reveal_strlit("timestamp");
    assert("taskId"@.len() == 6);
    assert("clientId"@.len() == 8);
    assert("expression"@.len() == 10);
    assert("number"@.len() == 6);
    assert("result"@.len() == 6);
    assert("error"@.len() == 5);
    assert("language"@.len() == 8);
    assert("timestamp"@.len() == 9);
    assert("taskId"@[0] == 't' && "number"@[0] == 'n' && "result"@[0] == 'r');
    assert("clientId"@[0] == 'c' && "language"@[0] == 'l');
    let ms = result_members(v);
    assert(ms.len() == 6);
    assert(key_wf("taskId"@));
    assert(key_wf("clientId"@));
    assert(key_wf("expression"@));
    assert(key_wf("number"@));
    assert(key_wf("result"@));
    assert(key_wf("error"@));
    assert(key_wf("language"@));
    assert(key_wf("timestamp"@));
    assert(ms[0] == ("taskId"@, JVal::S(v.task_id)));
    assert(ms[1] == ("clientId"@, JVal::S(v.client_id)));
    assert(ms[4] == ("language"@, JVal::S(v.language)));
    assert(ms[5] == ("timestamp"@, JVal::N(v.timestamp)));
    assert(forall|t: int| 0 <= t < ms.len() ==> key_wf(#[trigger] ms[t].0)) by {
        assert(ms[2].0 == "expression"@ || ms[2].0 == "number"@);
        assert(ms[3].0 == "result"@ || ms[3].0 == "error"@);
    }
    lemma_top_encode(ms);
    assert(sp_top(spec_encode_result(v)) == Some(ms));
    let a0: Option<Seq<char>> = None;
    let b0: Option<u64> = None;
    let tid = Some(v.task_id);
    let cid = Some(v.client_id);
    assert(sp_fill_result(ms, 0, a0, a0, a0, b0, a0, a0, a0, b0) == sp_fill_result(
        ms, 1, tid, a0, a0, b0, a0, a0, a0, b0,
    ));
    assert(sp_fill_result(ms, 1, tid, a0, a0, b0, a0, a0, a0, b0) == sp_fill_result(
        ms, 2, tid, cid, a0, b0, a0, a0, a0, b0,
    ));
    let (ex, num) = match v.echo {
        EchoView::Expression(e) => (Some(e), b0),
        EchoView::Number(n) => (a0, Some(n)),
    };
    assert(sp_fill_result(ms, 2, tid, cid, a0, b0, a0, a0, a0, b0) == sp_fill_result(
        ms, 3, tid, cid, ex, num, a0, a0, a0, b0,
    )) by {
        match v.echo {
            EchoView::Expression(e) => {
                assert(ms[2] == ("expression"@, JVal::S(e)));
            },
            EchoView::Number(n) => {
                assert(ms[2] == ("number"@, JVal::N(n)));
            },
        }
    }
    let (res, err) = match v.outcome {
        OutcomeView::Success(r) => (Some(r), a0),
        OutcomeView::Failure(m) => (a0, Some(m)),
    };
    assert(sp_fill_result(ms, 3, tid, cid, ex, num, a0, a0, a0, b0) == sp_fill_result(
        ms, 4, tid, cid, ex, num, res, err, a0, b0,
    )) by {
        match v.outcome {
            OutcomeView::Success(r) => {
                assert(ms[3] == ("result"@, JVal::S(r)));
            },
            OutcomeView::Failure(m) => {
                assert(ms[3] == ("error"@, JVal::S(m)));
            },
        }
    }
    let lang = Some(v.language);
    assert(sp_fill_result(ms, 4, tid, cid, ex, num, res, err, a0, b0) == sp_fill_result(
        ms, 5, tid, cid, ex, num, res, err, lang, b0,
    ));
    let ts = Some(v.timestamp);
    assert(sp_fill_result(ms, 5, tid, cid, ex, num, res, err, lang, b0) == sp_fill_result(
        ms, 6, tid, cid, ex, num, res, err, lang, ts,
    ));
    assert(sp_fill_result(ms, 6, tid, cid, ex, num, res, err, lang, ts) == Some(v)) by {
        match v.echo {
            EchoView::Expression(e) => {
                assert(ex == Some(e));
            },
            EchoView::Number(n) => {
                assert(num == Some(n));
            },
        }
        match v.outcome {
            OutcomeView::Success(r) => {
                assert(res == Some(r));
            },
            OutcomeView::Failure(m) => {
                assert(err == Some(m));
            },
        }
    }
}

} // verus!
