//! Encoding of result records to the canonical wire form: fields in a fixed
//! order, no whitespace, string values escaped.

use vstd::prelude::*;
use vstd::string::StringExecFns;
use crate::json::JVal;
use crate::record::{ResultRecord, ResultView, Echo, EchoView, Outcome, OutcomeView};
use crate::strutil::{str_to_chars, u64_to_decimal, spec_u64_str};

verus! {

/// The escape code of a character that cannot stand for itself in a quoted
/// string: quotes, backslashes, and the control characters with short
/// escapes.
pub open spec fn esc_code(c: char) -> Option<char> {
    if c == '"' { Some('"') }
    else if c == '\\' { Some('\\') }
    else if c == '\u{8}' { Some('b') }
    else if c == '\t' { Some('t') }
    else if c == '\n' { Some('n') }
    else if c == '\u{c}' { Some('f') }
    else if c == '\r' { Some('r') }
    else { None }
}

/// The escape of one character: a backslash and its escape code where one
/// exists, else the character itself.
pub open spec fn esc_char(c: char) -> Seq<char> {
    match esc_code(c) {
        Some(e) => seq!['\\', e],
        None => seq![c],
    }
}

/// The escaped form of a string body.
pub open spec fn esc(s: Seq<char>) -> Seq<char>
    decreases s.len(),
{
    if s.len() == 0 {
        Seq::<char>::empty()
    } else {
        esc_char(s[0]) + esc(s.drop_first())
    }
}

pub proof fn lemma_esc_push(s: Seq<char>, c: char)
    ensures
        esc(s.push(c)) == esc(s) + esc_char(c),
    decreases s.len(),
{
    if s.len() == 0 {
        assert(s.push(c)[0] == c);
        assert(s.push(c).drop_first() =~= Seq::<char>::empty());
        assert(esc(Seq::<char>::empty()) == Seq::<char>::empty());
        assert(esc(s.push(c)) == esc_char(c) + Seq::<char>::empty());
        assert(esc_char(c) + Seq::<char>::empty() =~= Seq::<char>::empty() + esc_char(c));
        assert(esc(s.push(c)) =~= esc(s) + esc_char(c));
    } else {
        assert(s.push(c)[0] == s[0]);
        assert(s.push(c).drop_first() =~= s.drop_first().push(c));
        lemma_esc_push(s.drop_first(), c);
        assert(esc_char(s[0]) + (esc(s.drop_first()) + esc_char(c)) =~= (esc_char(s[0]) + esc(
            s.drop_first(),
        )) + esc_char(c));
    }
}

/// The rendering of a value: a quoted escaped string, or decimal digits.
pub open spec fn render_val(v: JVal) -> Seq<char> {
    match v {
        JVal::S(s) => seq!['"'] + esc(s) + seq!['"'],
        JVal::N(n) => spec_u64_str(n as int),
    }
}

/// The rendering of one member.
pub open spec fn render_member(m: (Seq<char>, JVal)) -> Seq<char> {
    seq!['"'] + m.0 + seq!['"', ':'] + render_val(m.1)
}

/// The rendering of a member list, comma separated.
pub open spec fn render_members(ms: Seq<(Seq<char>, JVal)>) -> Seq<char>
    decreases ms.len(),
{
    if ms.len() == 0 {
        Seq::<char>::empty()
    } else if ms.len() == 1 {
        render_member(ms[0])
    } else {
        render_member(ms[0]) + seq![','] + render_members(ms.drop_first())
    }
}

/// The rendering of a whole object.
pub open spec fn render_obj(ms: Seq<(Seq<char>, JVal)>) -> Seq<char> {
    seq!['{'] + render_members(ms) + seq!['}']
}

/// The members of a result record on the wire, in encoding order.
pub open spec fn result_members(v: ResultView) -> Seq<(Seq<char>, JVal)> {
    seq![
        ("taskId"@, JVal::S(v.task_id)),
        ("clientId"@, JVal::S(v.client_id)),
        match v.echo {
            EchoView::Expression(e) => ("expression"@, JVal::S(e)),
            EchoView::Number(n) => ("number"@, JVal::N(n)),
        },
        match v.outcome {
            OutcomeView::Success(s) => ("result"@, JVal::S(s)),
            OutcomeView::Failure(m) => ("error"@, JVal::S(m)),
        },
        ("language"@, JVal::S(v.language)),
        ("timestamp"@, JVal::N(v.timestamp)),
    ]
}

/// The canonical encoding of a result record.
pub open spec fn spec_encode_result(v: ResultView) -> Seq<char> {
    render_obj(result_members(v))
}

fn esc_code_exec(c: char) -> (r: Option<char>)
    ensures
        r == esc_code(c),
{
    if c == '"' { Some('"') }
    else if c == '\\' { Some('\\') }
    else if c == '\u{8}' { Some('b') }
    else if c == '\t' { Some('t') }
    else if c == '\n' { Some('n') }
    else if c == '\u{c}' { Some('f') }
    else if c == '\r' { Some('r') }
    else { None }
}

#[verifier::loop_isolation(false)]
fn push_escaped(out: &mut String, s: &str)
    ensures
        final(out)@ == old(out)@ + esc(s@),
{
    let ghost base = out@;
    let cs = str_to_chars(s);
    let mut i: usize = 0;
    while i < cs.len()
        invariant
            i <= cs@.len(),
            cs@ == s@,
            out@ == base + esc(s@.subrange(0, i as int)),
        decreases cs@.len() - i,
    {
        let c = cs[i];
        proof {
            let cur = s@.subrange(0, i as int);
            let next = s@.subrange(0, i as int + 1);
            assert(cur.push(c) =~= next);
            lemma_esc_push(cur, c);
        }
        match esc_code_exec(c) {
            Some(e) => {
                out.push('\\');
                out.push(e);
                proof {
                    assert(out@ =~= base + esc(s@.subrange(0, i as int + 1)));
                }
            },
            None => {
                out.push(c);
                proof {
                    assert(out@ =~= base + esc(s@.subrange(0, i as int + 1)));
                }
            },
        }
        i += 1;
    }
    proof {
        assert(s@.subrange(0, s@.len() as int) =~= s@);
    }
}

/// The optional leading comma of a member.
pub open spec fn comma_seq(comma: bool) -> Seq<char> {
    if comma {
        seq![',']
    } else {
        Seq::<char>::empty()
    }
}

fn push_string_member(out: &mut String, key: &str, val: &str, comma: bool)
    ensures
        final(out)@ == old(out)@ + comma_seq(comma) + render_member((key@, JVal::S(val@))),
{
    if comma {
        out.push(',');
    }
    out.push('"');
    out.append(key);
    out.push('"');
    out.push(':');
    out.push('"');
    push_escaped(out, val);
    out.push('"');
    proof {
        assert(out@ =~= old(out)@ + comma_seq(comma) + render_member((key@, JVal::S(val@))));
    }
}

fn push_num_member(out: &mut String, key: &str, val: u64, comma: bool)
    ensures
        final(out)@ == old(out)@ + comma_seq(comma) + render_member((key@, JVal::N(val))),
{
    if comma {
        out.push(',');
    }
    out.push('"');
    out.append(key);
    out.push('"');
    out.push(':');
    let d = u64_to_decimal(val);
    out.append(d.as_str());
    proof {
        assert(out@ =~= old(out)@ + comma_seq(comma) + render_member((key@, JVal::N(val))));
    }
}

proof fn lemma_render_obj6(ms: Seq<(Seq<char>, JVal)>)
    requires
        ms.len() == 6,
    ensures
        render_obj(ms) == seq!['{'] + render_member(ms[0]) + seq![','] + render_member(ms[1])
            + seq![','] + render_member(ms[2]) + seq![','] + render_member(ms[3]) + seq![',']
            + render_member(ms[4]) + seq![','] + render_member(ms[5]) + seq!['}'],
{
    let m1 = ms.drop_first();
    let m2 = m1.drop_first();
    let m3 = m2.drop_first();
    let m4 = m3.drop_first();
    let m5 = m4.drop_first();
    assert(m1[0] == ms[1] && m2[0] == ms[2] && m3[0] == ms[3] && m4[0] == ms[4] && m5[0] == ms[5]);
    assert(render_members(m5) == render_member(ms[5]));
    assert(render_members(m4) == render_member(ms[4]) + seq![','] + render_members(m5));
    assert(render_members(m3) == render_member(ms[3]) + seq![','] + render_members(m4));
    assert(render_members(m2) == render_member(ms[2]) + seq![','] + render_members(m3));
    assert(render_members(m1) == render_member(ms[1]) + seq![','] + render_members(m2));
    assert(render_members(ms) == render_member(ms[0]) + seq![','] + render_members(m1));
    assert(seq!['{'] + render_members(ms) + seq!['}'] =~= seq!['{'] + render_member(ms[0])
        + seq![','] + render_member(ms[1]) + seq![','] + render_member(ms[2]) + seq![',']
        + render_member(ms[3]) + seq![','] + render_member(ms[4]) + seq![','] + render_member(
        ms[5],
    ) + seq!['}']);
}

/// Encodes a result record to the canonical wire form. Exactly one of the
/// `result` and `error` fields appears, according to the outcome.
pub fn encode_result(r: &ResultRecord) -> (s: String)
    ensures
        s@ == spec_encode_result(r@),
{
    let ghost ms = result_members(r@);
    let mut out = String::new();
    out.push('{');
    push_string_member(&mut out, "taskId", r.task_id.as_str(), false);
    push_string_member(&mut out, "clientId", r.client_id.as_str(), true);
    match &r.echo {
        Echo::Expression(e) => {
            push_string_member(&mut out, "expression", e.as_str(), true);
        },
        Echo::Number(n) => {
            push_num_member(&mut out, "number", *n, true);
        },
    }
    match &r.outcome {
        Outcome::Success(v) => {
            push_string_member(&mut out, "result", v.as_str(), true);
        },
        Outcome::Failure(m) => {
            push_string_member(&mut out, "error", m.as_str(), true);
        },
    }
    push_string_member(&mut out, "language", r.language.as_str(), true);
    push_num_member(&mut out, "timestamp", r.timestamp, true);
    out.push('}');
    proof {
        lemma_render_obj6(ms);
        assert(out@ =~= render_obj(ms));
    }
    out
}

} // verus!
