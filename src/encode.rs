//! Writing a message as one line in its canonical form.
use vstd::prelude::*;
use crate::decode::{chars_of, push_char};
use crate::json::{JsonScalar, Scalar, code_of, is_control, scalars_view};
use crate::message::{DataModel, Message, MessageData, MessageModel, Timestamp};

verus! {

/// The RFC 3339 text that chrono writes for an instant, or none where the
/// instant lies outside chrono's range.
pub uninterp spec fn utc_text(secs: i64, nanos: u32) -> Option<Seq<char>>;

/// The lower-case hexadecimal digit of `v`, for `0 <= v < 16`.
pub open spec fn hex_char(v: int) -> char {
    if v == 0 {
        '0'
    } else if v == 1 {
        '1'
    } else if v == 2 {
        '2'
    } else if v == 3 {
        '3'
    } else if v == 4 {
        '4'
    } else if v == 5 {
        '5'
    } else if v == 6 {
        '6'
    } else if v == 7 {
        '7'
    } else if v == 8 {
        '8'
    } else if v == 9 {
        '9'
    } else if v == 10 {
        'a'
    } else if v == 11 {
        'b'
    } else if v == 12 {
        'c'
    } else if v == 13 {
        'd'
    } else if v == 14 {
        'e'
    } else if v == 15 {
        'f'
    } else {
        'f'
    }
}

/// How one character of a text is written inside a string literal.
pub open spec fn escape_char(c: char) -> Seq<char> {
    if c == '"' {
        seq!['\\', '"']
    } else if c == '\\' {
        seq!['\\', '\\']
    } else if is_control(c) {
        seq!['\\', 'u', '0', '0', hex_char(code_of(c) / 16), hex_char(code_of(c) % 16)]
    } else {
        seq![c]
    }
}

/// The inside of a string literal that holds `t`.
pub open spec fn escape(t: Seq<char>) -> Seq<char>
    decreases t.len(),
{
    if t.len() == 0 {
        seq![]
    } else {
        escape_char(t[0]) + escape(t.drop_first())
    }
}

/// The decimal digits of `n`.
pub open spec fn dec(n: nat) -> Seq<char>
    decreases n,
{
    if n < 10 {
        seq![hex_char(n as int)]
    } else {
        dec(n / 10).push(hex_char((n % 10) as int))
    }
}

pub open spec fn enc_int(v: int) -> Seq<char> {
    if v < 0 {
        seq!['-'] + dec((-v) as nat)
    } else {
        dec(v as nat)
    }
}

pub open spec fn enc_string(t: Seq<char>) -> Seq<char> {
    seq!['"'] + escape(t) + seq!['"']
}

/// A scalar as written; a scalar that the encoder never writes (`Number`)
/// has no text.
pub open spec fn enc_scalar(v: Scalar) -> Seq<char> {
    match v {
        Scalar::Null => seq!['n', 'u', 'l', 'l'],
        Scalar::Bool(true) => seq!['t', 'r', 'u', 'e'],
        Scalar::Bool(false) => seq!['f', 'a', 'l', 's', 'e'],
        Scalar::Int(i) => enc_int(i as int),
        Scalar::Number => seq![],
        Scalar::Str(t) => enc_string(t),
    }
}

pub open spec fn enc_member(m: (Seq<char>, Scalar)) -> Seq<char> {
    enc_string(m.0) + seq![':'] + enc_scalar(m.1)
}

/// Members written one after another, separated by commas.
pub open spec fn enc_members(ms: Seq<(Seq<char>, Scalar)>) -> Seq<char>
    decreases ms.len(),
{
    if ms.len() == 0 {
        seq![]
    } else if ms.len() == 1 {
        enc_member(ms[0])
    } else {
        enc_members(ms.drop_last()) + seq![','] + enc_member(ms.last())
    }
}

/// A date member's value: `null`, or chrono's text of the instant.
pub open spec fn date_scalar(d: Option<Timestamp>) -> Option<Scalar> {
    match d {
        None => Some(Scalar::Null),
        Some(t) => match utc_text(t.secs, t.nanos) {
            Some(x) => Some(Scalar::Str(x)),
            None => None,
        },
    }
}

pub open spec fn opt_int_scalar(h: Option<i32>) -> Scalar {
    match h {
        None => Scalar::Null,
        Some(v) => Scalar::Int(v),
    }
}

/// The members of a record's object, in the order of its fields.
pub open spec fn data_members(d: DataModel) -> Option<Seq<(Seq<char>, Scalar)>> {
    match d {
        DataModel::Person { person_id, name } => Some(
            seq![(seq!['p', 'e', 'r', 's', 'o', 'n', '_', 'i', 'd'], Scalar::Int(person_id)), (seq!['n', 'a', 'm', 'e'], Scalar::Str(name))],
        ),
        DataModel::Company { company_id, company_name, headcount } => Some(
            seq![
                (seq!['c', 'o', 'm', 'p', 'a', 'n', 'y', '_', 'i', 'd'], Scalar::Int(company_id)),
                (seq!['c', 'o', 'm', 'p', 'a', 'n', 'y', '_', 'n', 'a', 'm', 'e'], Scalar::Str(company_name)),
                (seq!['h', 'e', 'a', 'd', 'c', 'o', 'u', 'n', 't'], opt_int_scalar(headcount)),
            ],
        ),
        DataModel::CompanyAcquisition {
            parent_company_id,
            acquired_company_id,
            merged_into_parent_company,
        } => Some(
            seq![
                (seq!['p', 'a', 'r', 'e', 'n', 't', '_', 'c', 'o', 'm', 'p', 'a', 'n', 'y', '_', 'i', 'd'], Scalar::Int(parent_company_id)),
                (seq!['a', 'c', 'q', 'u', 'i', 'r', 'e', 'd', '_', 'c', 'o', 'm', 'p', 'a', 'n', 'y', '_', 'i', 'd'], Scalar::Int(acquired_company_id)),
                (seq!['m', 'e', 'r', 'g', 'e', 'd', '_', 'i', 'n', 't', 'o', '_', 'p', 'a', 'r', 'e', 'n', 't', '_', 'c', 'o', 'm', 'p', 'a', 'n', 'y'], Scalar::Bool(merged_into_parent_company)),
            ],
        ),
        DataModel::PersonEmployment {
            company_id,
            person_id,
            employment_title,
            start_date,
            end_date,
        } => match (date_scalar(start_date), date_scalar(end_date)) {
            (Some(a), Some(b)) => Some(
                seq![
                    (seq!['c', 'o', 'm', 'p', 'a', 'n', 'y', '_', 'i', 'd'], Scalar::Int(company_id)),
                    (seq!['p', 'e', 'r', 's', 'o', 'n', '_', 'i', 'd'], Scalar::Int(person_id)),
                    (seq!['e', 'm', 'p', 'l', 'o', 'y', 'm', 'e', 'n', 't', '_', 't', 'i', 't', 'l', 'e'], Scalar::Str(employment_title)),
                    (seq!['s', 't', 'a', 'r', 't', '_', 'd', 'a', 't', 'e'], a),
                    (seq!['e', 'n', 'd', '_', 'd', 'a', 't', 'e'], b),
                ],
            ),
            _ => None,
        },
    }
}

/// The line for a type tag and the members of its record.
pub open spec fn doc_text(tag: Seq<char>, ms: Seq<(Seq<char>, Scalar)>) -> Seq<char> {
    seq!['{'] + enc_member((seq!['t', 'y', 'p', 'e'], Scalar::Str(tag))) + seq![','] + enc_string(
        seq!['d', 'a', 't', 'a'],
    ) + seq![':', '{'] + enc_members(ms) + seq!['}', '}']
}

/// The canonical line of a message, or none where chrono cannot write one of
/// its dates.
pub open spec fn encode_spec(m: MessageModel) -> Option<Seq<char>> {
    match data_members(m.data) {
        Some(ms) => Some(doc_text(m.type_, ms)),
        None => None,
    }
}

/// Relies on chrono's `DateTime::<Utc>::from_timestamp` (none outside
/// chrono's range) and `DateTime::to_rfc3339`: the RFC 3339 text of an instant.
#[verifier::external_body]
fn format_utc(t: Timestamp) -> (r: Option<String>)
    ensures
        match r {
            Some(x) => utc_text(t.secs, t.nanos) == Some(x@),
            None => utc_text(t.secs, t.nanos) is None,
        },
{
    chrono::DateTime::<chrono::Utc>::from_timestamp(t.secs, t.nanos).map(|d| d.to_rfc3339())
}

fn hex_char_of(v: u32) -> (r: char)
    ensures
        r == hex_char(v as int),
{
    if v == 0 {
        '0'
    } else if v == 1 {
        '1'
    } else if v == 2 {
        '2'
    } else if v == 3 {
        '3'
    } else if v == 4 {
        '4'
    } else if v == 5 {
        '5'
    } else if v == 6 {
        '6'
    } else if v == 7 {
        '7'
    } else if v == 8 {
        '8'
    } else if v == 9 {
        '9'
    } else if v == 10 {
        'a'
    } else if v == 11 {
        'b'
    } else if v == 12 {
        'c'
    } else if v == 13 {
        'd'
    } else if v == 14 {
        'e'
    } else if v == 15 {
        'f'
    } else {
        'f'
    }
}

proof fn lemma_escape_push(t: Seq<char>, c: char)
    ensures
        escape(t.push(c)) == escape(t) + escape_char(c),
    decreases t.len(),
{
    if t.len() == 0 {
        assert(t.push(c).drop_first() =~= seq![]);
        assert(t.push(c)[0] == c);
        assert(escape(t.push(c).drop_first()) =~= seq![]);
        assert(escape(t) =~= seq![]);
        assert(escape(t.push(c)) =~= escape(t) + escape_char(c));
    } else {
        lemma_escape_push(t.drop_first(), c);
        assert(t.push(c).drop_first() =~= t.drop_first().push(c));
        assert(t.push(c)[0] == t[0]);
        assert(escape(t.push(c)) == escape_char(t[0]) + escape(t.drop_first().push(c)));
        assert(escape(t.push(c)) =~= escape(t) + escape_char(c));
    }
}

fn push_escape_char(out: &mut String, c: char)
    ensures
        final(out)@ == old(out)@ + escape_char(c),
{
    let ghost start = out@;
    if c == '"' {
        push_char(out, '\\');
        push_char(out, '"');
    } else if c == '\\' {
        push_char(out, '\\');
        push_char(out, '\\');
    } else if crate::json::is_control_char(c) {
        let code = c as u32;
        assert(code as int == code_of(c));
        push_char(out, '\\');
        push_char(out, 'u');
        push_char(out, '0');
        push_char(out, '0');
        push_char(out, hex_char_of(code / 16));
        push_char(out, hex_char_of(code % 16));
    } else {
        push_char(out, c);
    }
    assert(out@ =~= start + escape_char(c));
}

fn push_string(out: &mut String, t: &Vec<char>)
    ensures
        final(out)@ == old(out)@ + enc_string(t@),
{
    let ghost start = out@;
    push_char(out, '"');
    let mut k: usize = 0;
    while k < t.len()
        invariant
            k <= t@.len(),
            out@ == start + seq!['"'] + escape(t@.subrange(0, k as int)),
        decreases t@.len() - k,
    {
        proof {
            lemma_escape_push(t@.subrange(0, k as int), t@[k as int]);
            assert(t@.subrange(0, k + 1) =~= t@.subrange(0, k as int).push(t@[k as int]));
        }
        push_escape_char(out, t[k]);
        k = k + 1;
        assert(out@ =~= start + seq!['"'] + escape(t@.subrange(0, k as int)));
    }
    assert(t@.subrange(0, t@.len() as int) =~= t@);
    push_char(out, '"');
    assert(out@ =~= start + enc_string(t@));
}

fn push_decimal(out: &mut String, n: u32)
    ensures
        final(out)@ == old(out)@ + dec(n as nat),
    decreases n,
{
    let ghost start = out@;
    if n >= 10 {
        push_decimal(out, n / 10);
    }
    push_char(out, hex_char_of(n % 10));
    assert(out@ =~= start + dec(n as nat));
}

fn push_int(out: &mut String, v: i32)
    ensures
        final(out)@ == old(out)@ + enc_int(v as int),
{
    let ghost start = out@;
    if v < 0 {
        push_char(out, '-');
        push_decimal(out, (-(v as i64)) as u32);
    } else {
        push_decimal(out, v as u32);
    }
    assert(out@ =~= start + enc_int(v as int));
}

pub open spec fn is_written(v: Scalar) -> bool {
    !(v is Number)
}

fn push_scalar(out: &mut String, v: &JsonScalar)
    ensures
        final(out)@ == old(out)@ + enc_scalar(v@),
{
    let ghost start = out@;
    match v {
        JsonScalar::Null => {
            push_char(out, 'n');
            push_char(out, 'u');
            push_char(out, 'l');
            push_char(out, 'l');
        },
        JsonScalar::Bool(true) => {
            push_char(out, 't');
            push_char(out, 'r');
            push_char(out, 'u');
            push_char(out, 'e');
        },
        JsonScalar::Bool(false) => {
            push_char(out, 'f');
            push_char(out, 'a');
            push_char(out, 'l');
            push_char(out, 's');
            push_char(out, 'e');
        },
        JsonScalar::Int(i) => push_int(out, *i),
        JsonScalar::Number => {},
        JsonScalar::Str(t) => push_string(out, t),
    }
    assert(out@ =~= start + enc_scalar(v@));
}

fn push_members(out: &mut String, ms: &Vec<(Vec<char>, JsonScalar)>)
    ensures
        final(out)@ == old(out)@ + enc_members(scalars_view(ms@)),
{
    let ghost start = out@;
    let ghost mv = scalars_view(ms@);
    let mut k: usize = 0;
    while k < ms.len()
        invariant
            k <= ms@.len(),
            mv == scalars_view(ms@),
            out@ == start + enc_members(mv.subrange(0, k as int)),
        decreases ms@.len() - k,
    {
        let ghost before = out@;
        if k > 0 {
            push_char(out, ',');
        }
        push_string(out, &ms[k].0);
        push_char(out, ':');
        push_scalar(out, &ms[k].1);
        proof {
            let p = mv.subrange(0, k + 1);
            assert(p.drop_last() =~= mv.subrange(0, k as int));
            assert(p.last() == mv[k as int]);
            assert(mv[k as int] == (ms@[k as int].0@, ms@[k as int].1@));
            if k == 0 {
                assert(mv.subrange(0, 0) =~= seq![]);
                assert(out@ =~= start + enc_members(p));
            } else {
                assert(out@ =~= start + enc_members(p));
            }
        }
        k = k + 1;
    }
    assert(mv.subrange(0, ms@.len() as int) =~= mv);
}

fn date_member(d: Option<Timestamp>) -> (r: Option<JsonScalar>)
    ensures
        match r {
            Some(v) => date_scalar(d) == Some(v@),
            None => date_scalar(d) is None,
        },
{
    match d {
        None => Some(JsonScalar::Null),
        Some(t) => match format_utc(t) {
            Some(x) => Some(JsonScalar::Str(chars_of(x.as_str()))),
            None => None,
        },
    }
}

fn data_members_exec(d: &MessageData) -> (r: Option<Vec<(Vec<char>, JsonScalar)>>)
    ensures
        match r {
            Some(ms) => data_members(d@) == Some(scalars_view(ms@)),
            None => data_members(d@) is None,
        },
{
    let mut ms: Vec<(Vec<char>, JsonScalar)> = Vec::new();
    match d {
        MessageData::Person(p) => {
            ms.push((vec!['p', 'e', 'r', 's', 'o', 'n', '_', 'i', 'd'], JsonScalar::Int(p.person_id)));
            ms.push((vec!['n', 'a', 'm', 'e'], JsonScalar::Str(chars_of(p.name.as_str()))));
        },
        MessageData::Company(c) => {
            ms.push((vec!['c', 'o', 'm', 'p', 'a', 'n', 'y', '_', 'i', 'd'], JsonScalar::Int(c.company_id)));
            ms.push(
                (vec!['c', 'o', 'm', 'p', 'a', 'n', 'y', '_', 'n', 'a', 'm', 'e'], JsonScalar::Str(chars_of(c.company_name.as_str()))),
            );
            let h = match c.headcount {
                None => JsonScalar::Null,
                Some(v) => JsonScalar::Int(v),
            };
            ms.push((vec!['h', 'e', 'a', 'd', 'c', 'o', 'u', 'n', 't'], h));
        },
        MessageData::CompanyAcquisition(a) => {
            ms.push((vec!['p', 'a', 'r', 'e', 'n', 't', '_', 'c', 'o', 'm', 'p', 'a', 'n', 'y', '_', 'i', 'd'], JsonScalar::Int(a.parent_company_id)));
            ms.push((vec!['a', 'c', 'q', 'u', 'i', 'r', 'e', 'd', '_', 'c', 'o', 'm', 'p', 'a', 'n', 'y', '_', 'i', 'd'], JsonScalar::Int(a.acquired_company_id)));
            ms.push(
                (vec!['m', 'e', 'r', 'g', 'e', 'd', '_', 'i', 'n', 't', 'o', '_', 'p', 'a', 'r', 'e', 'n', 't', '_', 'c', 'o', 'm', 'p', 'a', 'n', 'y'], JsonScalar::Bool(a.merged_into_parent_company)),
            );
        },
        MessageData::PersonEmployment(e) => {
            let a = match date_member(e.start_date) {
                Some(a) => a,
                None => {
                    return None;
                },
            };
            let b = match date_member(e.end_date) {
                Some(b) => b,
                None => {
                    return None;
                },
            };
            ms.push((vec!['c', 'o', 'm', 'p', 'a', 'n', 'y', '_', 'i', 'd'], JsonScalar::Int(e.company_id)));
            ms.push((vec!['p', 'e', 'r', 's', 'o', 'n', '_', 'i', 'd'], JsonScalar::Int(e.person_id)));
            ms.push(
                (vec!['e', 'm', 'p', 'l', 'o', 'y', 'm', 'e', 'n', 't', '_', 't', 'i', 't', 'l', 'e'], JsonScalar::Str(chars_of(e.employment_title.as_str()))),
            );
            ms.push((vec!['s', 't', 'a', 'r', 't', '_', 'd', 'a', 't', 'e'], a));
            ms.push((vec!['e', 'n', 'd', '_', 'd', 'a', 't', 'e'], b));
        },
    }
    assert(scalars_view(ms@) =~= data_members(d@)->0);
    Some(ms)
}

/// Writes a message as one line: `{"type":...,"data":{...}}` with the
/// record's fields in order, absent optional fields as `null`. Gives none
/// where chrono cannot write one of its dates.
pub fn encode(m: &Message) -> (r: Option<String>)
    ensures
        match r {
            Some(x) => encode_spec(m@) == Some(x@),
            None => encode_spec(m@) is None,
        },
{
    let ms = match data_members_exec(&m.data) {
        Some(ms) => ms,
        None => {
            return None;
        },
    };
    let mut out = String::new();
    push_char(&mut out, '{');
    push_string(&mut out, &vec!['t', 'y', 'p', 'e']);
    push_char(&mut out, ':');
    push_string(&mut out, &chars_of(m.type_.as_str()));
    push_char(&mut out, ',');
    push_string(&mut out, &vec!['d', 'a', 't', 'a']);
    push_char(&mut out, ':');
    push_char(&mut out, '{');
    push_members(&mut out, &ms);
    push_char(&mut out, '}');
    push_char(&mut out, '}');
    assert(out@ =~= doc_text(m.type_@, scalars_view(ms@)));
    Some(out)
}

} // verus!
