//! What `decode` makes of what `encode` writes.
use vstd::prelude::*;
use crate::json::{
    Field, Scalar, code_of, digit_val, digits_end, digits_val, field_members, hex4, hex_val,
    is_control, is_digit, is_json_ws, lemma_char_of_code, parse_document, parse_field, parse_key,
    parse_number, parse_scalar, parse_scalar_object, scalar_members, short_escape, str_from,
    unicode_escape, word_at,
};
use crate::decode::{DecodeError, decode_data, decode_spec, lookup, lookup_from, utc_instant};
use crate::message::{
    DataModel, MessageModel, Timestamp, tag_acquisition, tag_company, tag_employment, tag_of,
    tag_person,
};
use crate::encode::{
    data_members, dec, doc_text, enc_int, enc_member, enc_members, enc_scalar, enc_string,
    encode_spec, escape, escape_char, hex_char, is_written, utc_text,
};

verus! {

/// `w` stands in `s` from position `i` on.
pub open spec fn occurs(s: Seq<char>, i: int, w: Seq<char>) -> bool {
    0 <= i && i + w.len() <= s.len() && forall|k: int| 0 <= k < w.len() ==> s[i + k] == #[trigger] w[k]
}

proof fn lemma_occurs_split(s: Seq<char>, i: int, a: Seq<char>, b: Seq<char>)
    requires
        occurs(s, i, a + b),
    ensures
        occurs(s, i, a),
        occurs(s, i + a.len(), b),
{
    assert forall|k: int| 0 <= k < a.len() implies s[i + k] == #[trigger] a[k] by {
        assert((a + b)[k] == a[k]);
    }
    assert forall|k: int| 0 <= k < b.len() implies s[i + a.len() + k] == #[trigger] b[k] by {
        assert((a + b)[a.len() + k] == b[k]);
    }
}

proof fn lemma_hex_char(v: int)
    requires
        0 <= v < 16,
    ensures
        hex_val(hex_char(v)) == v,
        v < 10 ==> is_digit(hex_char(v)) && digit_val(hex_char(v)) == v,
{
}

proof fn lemma_str(s: Seq<char>, i: int, t: Seq<char>, acc: Seq<char>)
    requires
        occurs(s, i, escape(t) + seq!['"']),
    ensures
        str_from(s, i, acc) == Some((acc + t, i + escape(t).len() + 1)),
    decreases t.len(),
{
    if t.len() == 0 {
        assert(escape(t) =~= seq![]);
        assert((escape(t) + seq!['"'])[0] == '"');
        assert(acc + t =~= acc);
        assert(s[i] == '"');
        assert(str_from(s, i, acc) == Some((acc, i + 1)));
    } else {
        let c = t[0];
        let ec = escape_char(c);
        let rest = t.drop_first();
        assert(escape(t) == ec + escape(rest));
        assert(escape(t) + seq!['"'] =~= ec + (escape(rest) + seq!['"']));
        lemma_occurs_split(s, i, ec, escape(rest) + seq!['"']);
        lemma_str(s, i + ec.len(), rest, acc.push(c));
        assert(acc.push(c) + rest =~= acc + t);
        if c == '"' || c == '\\' {
            assert(s[i] == '\\');
            assert(short_escape(s[i + 1]) == Some(c));
            assert(str_from(s, i, acc) == str_from(s, i + 2, acc.push(c)));
        } else if is_control(c) {
            let code = code_of(c);
            assert(0 <= code < 32);
            assert(ec[1] == 'u' && ec[2] == '0' && ec[3] == '0');
            assert(ec[4] == hex_char(code / 16) && ec[5] == hex_char(code % 16));
            lemma_hex_char(code / 16);
            lemma_hex_char(code % 16);
            assert(hex4(s, i + 2) == code);
            lemma_char_of_code(c);
            assert(unicode_escape(s, i + 2) == Some((c, i + 6)));
            assert(str_from(s, i, acc) == str_from(s, i + 6, acc.push(c)));
        } else {
            assert(ec == seq![c]);
            assert(ec[0] == c);
            assert(s[i] == c);
            assert(str_from(s, i, acc) == str_from(s, i + 1, acc.push(c)));
        }
    }
}

proof fn lemma_dec_digits(n: nat)
    ensures
        dec(n).len() >= 1,
        forall|k: int| 0 <= k < dec(n).len() ==> is_digit(#[trigger] dec(n)[k]),
        n >= 1 ==> dec(n)[0] != '0',
        n == 0 ==> dec(n) == seq!['0'],
    decreases n,
{
    if n < 10 {
        lemma_hex_char(n as int);
    } else {
        lemma_dec_digits(n / 10);
        lemma_hex_char((n % 10) as int);
        let p = dec(n / 10);
        assert(dec(n) == p.push(hex_char((n % 10) as int)));
        assert forall|k: int| 0 <= k < dec(n).len() implies is_digit(#[trigger] dec(n)[k]) by {
            if k < p.len() {
                assert(dec(n)[k] == p[k]);
            }
        }
        assert(dec(n)[0] == p[0]);
    }
}

proof fn lemma_digits_end(s: Seq<char>, a: int, b: int)
    requires
        0 <= a <= b <= s.len(),
        forall|j: int| a <= j < b ==> is_digit(#[trigger] s[j]),
        b < s.len() ==> !is_digit(s[b]),
    ensures
        digits_end(s, a) == b,
    decreases b - a,
{
    if a < b {
        lemma_digits_end(s, a + 1, b);
    }
}

proof fn lemma_digits_val(s: Seq<char>, a: int, n: nat)
    requires
        occurs(s, a, dec(n)),
    ensures
        digits_val(s, a, a + dec(n).len()) == n,
    decreases n,
{
    if n < 10 {
        lemma_hex_char(n as int);
        assert(dec(n)[0] == hex_char(n as int));
        assert(digits_val(s, a, a) == 0);
        assert(digits_val(s, a, a + 1) == 10 * digits_val(s, a, a) + digit_val(s[a]));
    } else {
        let p = dec(n / 10);
        let q = seq![hex_char((n % 10) as int)];
        assert(dec(n) =~= p + q);
        lemma_occurs_split(s, a, p, q);
        lemma_digits_val(s, a, n / 10);
        lemma_hex_char((n % 10) as int);
        assert(q[0] == hex_char((n % 10) as int));
        assert(s[a + p.len()] == q[0]);
        assert(digits_val(s, a, a + p.len() + 1) == 10 * digits_val(s, a, a + p.len()) + digit_val(
            s[a + p.len()],
        ));
    }
}

proof fn lemma_number(s: Seq<char>, i: int, v: i32)
    requires
        occurs(s, i, enc_int(v as int)),
        i + enc_int(v as int).len() < s.len() ==> {
            let c = s[i + enc_int(v as int).len()];
            !is_digit(c) && c != '.' && c != 'e' && c != 'E'
        },
    ensures
        parse_number(s, i) == Some((Scalar::Int(v), i + enc_int(v as int).len())),
{
    let n: nat = if v < 0 {
        (-v) as nat
    } else {
        v as nat
    };
    let d = dec(n);
    lemma_dec_digits(n);
    let a = if v < 0 {
        i + 1
    } else {
        i
    };
    if v < 0 {
        assert(enc_int(v as int) == seq!['-'] + d);
        lemma_occurs_split(s, i, seq!['-'], d);
        assert(seq!['-'][0] == '-');
        assert(s[i] == '-');
    } else {
        assert(enc_int(v as int) == d);
    }
    assert(s[a] == d[0]);
    assert forall|j: int| a <= j < a + d.len() implies is_digit(#[trigger] s[j]) by {
        assert(s[a + (j - a)] == d[j - a]);
    }
    let b = a + d.len();
    lemma_digits_end(s, a, b);
    lemma_digits_val(s, a, n);
    if n == 0 {
        assert(d[0] == '0');
    }
}

proof fn lemma_word(s: Seq<char>, i: int, w: Seq<char>)
    requires
        occurs(s, i, w),
    ensures
        word_at(s, i, w),
{
    assert(s.subrange(i, i + w.len()) =~= w);
}

proof fn lemma_not_word(s: Seq<char>, i: int, w: Seq<char>)
    requires
        0 <= i < s.len(),
        w.len() > 0,
        s[i] != w[0],
    ensures
        !word_at(s, i, w),
{
    if i + w.len() <= s.len() {
        assert(s.subrange(i, i + w.len())[0] == s[i]);
    }
}

proof fn lemma_scalar(s: Seq<char>, i: int, v: Scalar)
    requires
        is_written(v),
        occurs(s, i, enc_scalar(v)),
        i + enc_scalar(v).len() < s.len(),
        s[i + enc_scalar(v).len()] == ',' || s[i + enc_scalar(v).len()] == '}',
    ensures
        parse_scalar(s, i) == Some((v, i + enc_scalar(v).len())),
{
    let w_true = seq!['t', 'r', 'u', 'e'];
    let w_false = seq!['f', 'a', 'l', 's', 'e'];
    let w_null = seq!['n', 'u', 'l', 'l'];
    match v {
        Scalar::Str(t) => {
            assert(enc_string(t) =~= seq!['"'] + (escape(t) + seq!['"']));
            lemma_occurs_split(s, i, seq!['"'], escape(t) + seq!['"']);
            assert(seq!['"'][0] == '"');
            lemma_str(s, i + 1, t, seq![]);
            assert(seq![] + t =~= t);
        },
        Scalar::Int(x) => {
            lemma_number(s, i, x);
            let e = enc_int(x as int);
            lemma_dec_digits(if x < 0 {
                (-x) as nat
            } else {
                x as nat
            });
            if x < 0 {
                assert(e == seq!['-'] + dec((-x) as nat));
                assert(e[0] == '-');
            } else {
                assert(e[0] == dec(x as nat)[0]);
            }
            assert(s[i] == e[0]);
            lemma_not_word(s, i, w_true);
            lemma_not_word(s, i, w_false);
            lemma_not_word(s, i, w_null);
        },
        Scalar::Bool(true) => {
            assert(enc_scalar(v)[0] == 't');
            lemma_word(s, i, w_true);
        },
        Scalar::Bool(false) => {
            assert(enc_scalar(v)[0] == 'f');
            lemma_not_word(s, i, w_true);
            lemma_word(s, i, w_false);
        },
        Scalar::Null => {
            assert(enc_scalar(v)[0] == 'n');
            lemma_not_word(s, i, w_true);
            lemma_not_word(s, i, w_false);
            lemma_word(s, i, w_null);
        },
        Scalar::Number => {},
    }
}

proof fn lemma_first_char(v: Scalar)
    requires
        is_written(v),
    ensures
        enc_scalar(v).len() >= 1,
        !is_json_ws(enc_scalar(v)[0]),
        enc_scalar(v)[0] != '{',
{
    match v {
        Scalar::Int(x) => {
            let n: nat = if x < 0 {
                (-x) as nat
            } else {
                x as nat
            };
            lemma_dec_digits(n);
            if x < 0 {
                assert(enc_scalar(v) == seq!['-'] + dec(n));
            } else {
                assert(enc_scalar(v) == dec(n));
                assert(is_digit(dec(n)[0]));
            }
        },
        Scalar::Str(t) => {
            assert(enc_scalar(v) == seq!['"'] + escape(t) + seq!['"']);
            assert(enc_scalar(v)[0] == '"');
        },
        _ => {},
    }
}

proof fn lemma_key(s: Seq<char>, i: int, k: Seq<char>)
    requires
        occurs(s, i, enc_string(k) + seq![':']),
        i + enc_string(k).len() + 1 < s.len(),
        !is_json_ws(s[i + enc_string(k).len() + 1]),
    ensures
        parse_key(s, i) == Some((k, i + enc_string(k).len() + 1)),
{
    assert(enc_string(k) + seq![':'] =~= seq!['"'] + ((escape(k) + seq!['"']) + seq![':']));
    lemma_occurs_split(s, i, seq!['"'], (escape(k) + seq!['"']) + seq![':']);
    lemma_occurs_split(s, i + 1, escape(k) + seq!['"'], seq![':']);
    assert(seq!['"'][0] == '"');
    assert(seq![':'][0] == ':');
    lemma_str(s, i + 1, k, seq![]);
    assert(seq![] + k =~= k);
}

proof fn lemma_members_front(ms: Seq<(Seq<char>, Scalar)>)
    requires
        ms.len() >= 2,
    ensures
        enc_members(ms) == enc_member(ms[0]) + seq![','] + enc_members(ms.drop_first()),
    decreases ms.len(),
{
    let dl = ms.drop_last();
    if ms.len() == 2 {
        assert(dl.len() == 1);
        assert(dl[0] == ms[0]);
        assert(enc_members(dl) == enc_member(ms[0]));
        assert(ms.drop_first().len() == 1);
        assert(ms.drop_first()[0] == ms.last());
        assert(enc_members(ms.drop_first()) == enc_member(ms.last()));
    } else {
        lemma_members_front(dl);
        assert(ms.drop_first().drop_last() =~= dl.drop_first());
        assert(ms.drop_first().last() == ms.last());
        assert(dl[0] == ms[0]);
        assert(enc_members(ms) =~= enc_member(ms[0]) + seq![','] + enc_members(ms.drop_first()));
    }
}

proof fn lemma_members_first(ms: Seq<(Seq<char>, Scalar)>)
    requires
        ms.len() >= 1,
    ensures
        enc_members(ms).len() >= 1,
        enc_members(ms)[0] == '"',
{
    if ms.len() >= 2 {
        lemma_members_front(ms);
    }
    assert(enc_member(ms[0]) == seq!['"'] + escape(ms[0].0) + seq!['"'] + seq![':'] + enc_scalar(
        ms[0].1,
    ));
    assert(enc_member(ms[0])[0] == '"');
}

proof fn lemma_member(s: Seq<char>, i: int, m: (Seq<char>, Scalar), after: char)
    requires
        is_written(m.1),
        occurs(s, i, enc_member(m) + seq![after]),
        after == ',' || after == '}',
    ensures
        ({
            let p = i + enc_string(m.0).len() + 1;
            let q = i + enc_member(m).len();
            &&& parse_key(s, i) == Some((m.0, p))
            &&& parse_scalar(s, p) == Some((m.1, q))
            &&& q < s.len() && s[q] == after
        }),
{
    let a = enc_string(m.0) + seq![':'];
    let b = enc_scalar(m.1) + seq![after];
    assert(enc_member(m) + seq![after] =~= a + b);
    lemma_occurs_split(s, i, a, b);
    lemma_occurs_split(s, i + a.len(), enc_scalar(m.1), seq![after]);
    lemma_first_char(m.1);
    assert(b[0] == enc_scalar(m.1)[0]);
    assert(seq![after][0] == after);
    lemma_key(s, i, m.0);
    lemma_scalar(s, i + a.len(), m.1);
}

proof fn lemma_scalar_members(
    s: Seq<char>,
    i: int,
    ms: Seq<(Seq<char>, Scalar)>,
    acc: Seq<(Seq<char>, Scalar)>,
)
    requires
        ms.len() >= 1,
        forall|j: int| 0 <= j < ms.len() ==> is_written(#[trigger] ms[j].1),
        occurs(s, i, enc_members(ms) + seq!['}']),
    ensures
        scalar_members(s, i, acc) == Some((acc + ms, i + enc_members(ms).len() + 1)),
    decreases ms.len(),
{
    let m = ms[0];
    assert(is_written(ms[0].1));
    if ms.len() == 1 {
        assert(enc_members(ms) == enc_member(m));
        lemma_member(s, i, m, '}');
        assert(acc.push(m) =~= acc + ms);
    } else {
        let rest = ms.drop_first();
        lemma_members_front(ms);
        let head = enc_member(m) + seq![','];
        assert(enc_members(ms) + seq!['}'] =~= head + (enc_members(rest) + seq!['}']));
        lemma_occurs_split(s, i, head, enc_members(rest) + seq!['}']);
        lemma_member(s, i, m, ',');
        lemma_members_first(rest);
        assert((enc_members(rest) + seq!['}'])[0] == '"');
        assert forall|j: int| 0 <= j < rest.len() implies is_written(#[trigger] rest[j].1) by {
            assert(rest[j] == ms[j + 1]);
        }
        lemma_scalar_members(s, i + head.len(), rest, acc.push(m));
        assert(acc.push(m) + rest =~= acc + ms);
    }
}

proof fn lemma_scalar_object(s: Seq<char>, i: int, ms: Seq<(Seq<char>, Scalar)>)
    requires
        ms.len() >= 1,
        forall|j: int| 0 <= j < ms.len() ==> is_written(#[trigger] ms[j].1),
        occurs(s, i, seq!['{'] + (enc_members(ms) + seq!['}'])),
    ensures
        parse_scalar_object(s, i) == Some((ms, i + enc_members(ms).len() + 2)),
{
    lemma_occurs_split(s, i, seq!['{'], enc_members(ms) + seq!['}']);
    assert(seq!['{'][0] == '{');
    lemma_members_first(ms);
    assert((enc_members(ms) + seq!['}'])[0] == '"');
    lemma_scalar_members(s, i + 1, ms, seq![]);
    assert(seq![] + ms =~= ms);
}

pub open spec fn key_type() -> Seq<char> {
    seq!['t', 'y', 'p', 'e']
}

pub open spec fn key_data() -> Seq<char> {
    seq!['d', 'a', 't', 'a']
}

proof fn lemma_document_in(s: Seq<char>, tag: Seq<char>, ms: Seq<(Seq<char>, Scalar)>)
    requires
        ms.len() >= 1,
        forall|j: int| 0 <= j < ms.len() ==> is_written(#[trigger] ms[j].1),
        ({
            let w = seq!['{'] + ((enc_member((key_type(), Scalar::Str(tag))) + seq![',']) + ((
            enc_string(key_data()) + seq![':']) + ((seq!['{'] + (enc_members(ms) + seq!['}']))
                + seq!['}'])));
            occurs(s, 0, w) && s.len() == w.len()
        }),
    ensures
        parse_document(s) == Some(
            seq![
                (key_type(), Field::Scalar(Scalar::Str(tag))),
                (key_data(), Field::Object(ms)),
            ],
        ),
{
    let m0 = (key_type(), Scalar::Str(tag));
    let lead = seq!['{'];
    let first = enc_member(m0) + seq![','];
    let second_key = enc_string(key_data()) + seq![':'];
    let body = seq!['{'] + (enc_members(ms) + seq!['}']);
    let tail = seq!['}'];
    lemma_occurs_split(s, 0, lead, first + (second_key + (body + tail)));
    lemma_occurs_split(s, 1, first, second_key + (body + tail));
    let at_key: int = 1 + first.len() as int;
    lemma_occurs_split(s, at_key, second_key, body + tail);
    let at_body: int = at_key + second_key.len() as int;
    lemma_occurs_split(s, at_body, body, tail);
    let at_end: int = at_body + body.len() as int;
    assert(lead[0] == '{');
    assert(tail[0] == '}');
    assert(body[0] == '{');
    assert(first + (second_key + (body + tail)) =~= enc_member(m0) + seq![','] + (second_key + (body + tail)));
    lemma_member(s, 1, m0, ',');
    assert(second_key + (body + tail) =~= enc_string(key_data()) + seq![':'] + (body + tail));
    assert(enc_string(key_data())[0] == '"');
    assert((second_key + (body + tail))[0] == '"');
    lemma_key(s, at_key, key_data());
    lemma_scalar_object(s, at_body, ms);
    assert(at_end + 1 == s.len());
    let fm = seq![(key_type(), Field::Scalar(Scalar::Str(tag)))];
    assert(parse_field(s, at_body) == Some((Field::Object(ms), at_end)));
    assert(field_members(s, at_key, fm) == Some((fm.push((key_data(), Field::Object(ms))), at_end + 1)));
    assert(field_members(s, 1, seq![]) == field_members(s, at_key, fm));
    assert(fm.push((key_data(), Field::Object(ms))) =~= seq![
        (key_type(), Field::Scalar(Scalar::Str(tag))),
        (key_data(), Field::Object(ms)),
    ]);
}

proof fn lemma_document(tag: Seq<char>, ms: Seq<(Seq<char>, Scalar)>)
    requires
        ms.len() >= 1,
        forall|j: int| 0 <= j < ms.len() ==> is_written(#[trigger] ms[j].1),
    ensures
        parse_document(doc_text(tag, ms)) == Some(
            seq![
                (key_type(), Field::Scalar(Scalar::Str(tag))),
                (key_data(), Field::Object(ms)),
            ],
        ),
{
    let s = doc_text(tag, ms);
    let w = seq!['{'] + ((enc_member((key_type(), Scalar::Str(tag))) + seq![',']) + ((enc_string(
        key_data(),
    ) + seq![':']) + ((seq!['{'] + (enc_members(ms) + seq!['}'])) + seq!['}'])));
    assert(s =~= w);
    lemma_document_in(s, tag, ms);
}

/// The text that chrono writes for the date, if any, chrono reads back as
/// the same instant.
pub open spec fn date_reads_back(d: Option<Timestamp>) -> bool {
    match d {
        Some(t) => match utc_text(t.secs, t.nanos) {
            Some(x) => utc_instant(x) == Some((t.secs, t.nanos)),
            None => true,
        },
        None => true,
    }
}

pub open spec fn dates_read_back(d: DataModel) -> bool {
    match d {
        DataModel::PersonEmployment { start_date, end_date, .. } => date_reads_back(start_date)
            && date_reads_back(end_date),
        _ => true,
    }
}

proof fn lemma_data_person(d: DataModel)
    requires
        d is Person,
    ensures
        decode_data(tag_of(d), data_members(d)->0) == Ok::<DataModel, DecodeError>(d),
{
    reveal_with_fuel(lookup_from, 3);
    let ms = data_members(d)->0;
    assert(ms[0].0[0] != ms[1].0[0]);
}

proof fn lemma_data_company(d: DataModel)
    requires
        d is Company,
    ensures
        decode_data(tag_of(d), data_members(d)->0) == Ok::<DataModel, DecodeError>(d),
{
    reveal_with_fuel(lookup_from, 4);
    let ms = data_members(d)->0;
    assert(tag_of(d).len() != tag_person().len());
    assert(ms[0].0.len() != ms[1].0.len());
    assert(ms[0].0[0] != ms[2].0[0]);
    assert(ms[1].0[0] != ms[2].0[0]);
}

proof fn lemma_data_acquisition(d: DataModel)
    requires
        d is CompanyAcquisition,
    ensures
        decode_data(tag_of(d), data_members(d)->0) == Ok::<DataModel, DecodeError>(d),
{
    reveal_with_fuel(lookup_from, 4);
    let ms = data_members(d)->0;
    assert(tag_of(d).len() != tag_person().len());
    assert(tag_of(d).len() != tag_company().len());
    assert(ms[0].0[0] != ms[1].0[0]);
    assert(ms[0].0[0] != ms[2].0[0]);
    assert(ms[1].0[0] != ms[2].0[0]);
}

proof fn lemma_data_employment(d: DataModel)
    requires
        d is PersonEmployment,
        data_members(d) is Some,
        dates_read_back(d),
    ensures
        decode_data(tag_of(d), data_members(d)->0) == Ok::<DataModel, DecodeError>(d),
{
    reveal_with_fuel(lookup_from, 6);
    let ms = data_members(d)->0;
    assert(tag_of(d).len() != tag_person().len());
    assert(tag_of(d).len() != tag_company().len());
    assert(tag_of(d).len() != tag_acquisition().len());
    assert(ms[0].0[0] != ms[1].0[0]);
    assert(ms[0].0[0] != ms[2].0[0]);
    assert(ms[0].0[0] != ms[3].0[0]);
    assert(ms[0].0[0] != ms[4].0[0]);
    assert(ms[1].0[0] != ms[2].0[0]);
    assert(ms[1].0[0] != ms[3].0[0]);
    assert(ms[1].0[0] != ms[4].0[0]);
    assert(ms[2].0[0] != ms[3].0[0]);
    assert(ms[2].0.len() != ms[4].0.len());
    assert(ms[3].0[0] != ms[4].0[0]);
}

proof fn lemma_doc_lookups(tag: Seq<char>, ms: Seq<(Seq<char>, Scalar)>)
    ensures
        ({
            let doc = seq![
                (key_type(), Field::Scalar(Scalar::Str(tag))),
                (key_data(), Field::Object(ms)),
            ];
            &&& lookup(doc, key_type()) == Some(Field::Scalar(Scalar::Str(tag)))
            &&& lookup(doc, key_data()) == Some(Field::Object(ms))
        }),
{
    reveal_with_fuel(lookup_from, 3);
    assert(key_type()[0] != key_data()[0]);
}

proof fn lemma_members_written(d: DataModel)
    requires
        data_members(d) is Some,
    ensures
        data_members(d)->0.len() >= 1,
        forall|j: int|
            0 <= j < data_members(d)->0.len() ==> is_written(#[trigger] data_members(d)->0[j].1),
{
    let ms = data_members(d)->0;
    assert forall|j: int| 0 <= j < ms.len() implies is_written(#[trigger] ms[j].1) by {}
}

proof fn lemma_decode_from_doc(s: Seq<char>, tag: Seq<char>, ms: Seq<(Seq<char>, Scalar)>, d: DataModel)
    requires
        parse_document(s) == Some(
            seq![
                (key_type(), Field::Scalar(Scalar::Str(tag))),
                (key_data(), Field::Object(ms)),
            ],
        ),
        tag == tag_person() || tag == tag_company() || tag == tag_acquisition() || tag
            == tag_employment(),
        decode_data(tag, ms) == Ok::<DataModel, DecodeError>(d),
    ensures
        decode_spec(s) == Ok::<MessageModel, DecodeError>(MessageModel { type_: tag, data: d }),
{
    lemma_doc_lookups(tag, ms);
}

/// Decoding the line that `encode` writes for a message gives the message
/// back, for every message whose type tag names its record, as long as
/// chrono reads back the text it writes for each of its dates.
pub proof fn lemma_decode_encode(m: MessageModel)
    requires
        m.type_ == tag_of(m.data),
        encode_spec(m) is Some,
        dates_read_back(m.data),
    ensures
        decode_spec(encode_spec(m)->0) == Ok::<MessageModel, DecodeError>(m),
{
    let ms = data_members(m.data)->0;
    let s = encode_spec(m)->0;
    assert(s == doc_text(m.type_, ms));
    lemma_members_written(m.data);
    lemma_document(m.type_, ms);
    match m.data {
        DataModel::Person { .. } => lemma_data_person(m.data),
        DataModel::Company { .. } => lemma_data_company(m.data),
        DataModel::CompanyAcquisition { .. } => lemma_data_acquisition(m.data),
        DataModel::PersonEmployment { .. } => lemma_data_employment(m.data),
    }
    lemma_decode_from_doc(s, m.type_, ms, m.data);
}

} // verus!
