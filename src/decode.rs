//! Decoding a line into a typed message.
use vstd::prelude::*;
use vstd::std_specs::iter::IteratorSpec;
use crate::json::{
    Field, JsonField, JsonScalar, Scalar, fields_view, parse_document, parse_line, scalars_view,
};
use crate::message::{
    Company, CompanyAcquisition, DataModel, Message, MessageData, MessageModel, Person,
    PersonEmployment, Timestamp, tag_of, tag_acquisition, tag_company, tag_employment, tag_person,
};

verus! {

/// Why a line did not decode.
#[derive(Debug, Clone, Copy, PartialEq, Eq, Structural)]
pub enum DecodeError {
    /// The line is not a well-formed object.
    MalformedSyntax,
    /// The type tag names no known record.
    UnknownVariant,
    /// A member is missing or holds a value of the wrong kind.
    SchemaMismatch,
}

/// The instant that chrono reads from a date-time text (seconds since the
/// epoch and nanoseconds), or none where it reads none.
pub uninterp spec fn utc_instant(text: Seq<char>) -> Option<(i64, u32)>;

/// The value of the first member named `key` from position `k` on.
pub open spec fn lookup_from<V>(m: Seq<(Seq<char>, V)>, key: Seq<char>, k: int) -> Option<V>
    decreases m.len() - k,
{
    if k < 0 || k >= m.len() {
        None
    } else if m[k].0 == key {
        Some(m[k].1)
    } else {
        lookup_from(m, key, k + 1)
    }
}

/// The value of the first member named `key`.
pub open spec fn lookup<V>(m: Seq<(Seq<char>, V)>, key: Seq<char>) -> Option<V> {
    lookup_from(m, key, 0)
}

pub open spec fn int_field(f: Option<Scalar>) -> Option<i32> {
    match f {
        Some(Scalar::Int(v)) => Some(v),
        _ => None,
    }
}

pub open spec fn text_field(f: Option<Scalar>) -> Option<Seq<char>> {
    match f {
        Some(Scalar::Str(t)) => Some(t),
        _ => None,
    }
}

pub open spec fn bool_field(f: Option<Scalar>) -> Option<bool> {
    match f {
        Some(Scalar::Bool(b)) => Some(b),
        _ => None,
    }
}

/// An optional integer: absent or `null` give `Some(None)`.
pub open spec fn opt_int_field(f: Option<Scalar>) -> Option<Option<i32>> {
    match f {
        None => Some(None),
        Some(Scalar::Null) => Some(None),
        Some(Scalar::Int(v)) => Some(Some(v)),
        _ => None,
    }
}

/// An optional date-time: absent or `null` give `Some(None)`.
pub open spec fn date_field(f: Option<Scalar>) -> Option<Option<Timestamp>> {
    match f {
        None => Some(None),
        Some(Scalar::Null) => Some(None),
        Some(Scalar::Str(t)) => match utc_instant(t) {
            Some((secs, nanos)) => Some(Some(Timestamp { secs, nanos })),
            None => None,
        },
        _ => None,
    }
}

/// The record that an object of scalars holds under the type tag `tag`.
pub open spec fn decode_data(tag: Seq<char>, d: Seq<(Seq<char>, Scalar)>) -> Result<DataModel, DecodeError> {
    if tag == tag_person() {
        match (int_field(lookup(d, seq!['p', 'e', 'r', 's', 'o', 'n', '_', 'i', 'd'])), text_field(lookup(d, seq!['n', 'a', 'm', 'e']))) {
            (Some(person_id), Some(name)) => Ok(DataModel::Person { person_id, name }),
            _ => Err(DecodeError::SchemaMismatch),
        }
    } else if tag == tag_company() {
        match (
            int_field(lookup(d, seq!['c', 'o', 'm', 'p', 'a', 'n', 'y', '_', 'i', 'd'])),
            text_field(lookup(d, seq!['c', 'o', 'm', 'p', 'a', 'n', 'y', '_', 'n', 'a', 'm', 'e'])),
            opt_int_field(lookup(d, seq!['h', 'e', 'a', 'd', 'c', 'o', 'u', 'n', 't'])),
        ) {
            (Some(company_id), Some(company_name), Some(headcount)) => Ok(
                DataModel::Company { company_id, company_name, headcount },
            ),
            _ => Err(DecodeError::SchemaMismatch),
        }
    } else if tag == tag_acquisition() {
        match (
            int_field(lookup(d, seq!['p', 'a', 'r', 'e', 'n', 't', '_', 'c', 'o', 'm', 'p', 'a', 'n', 'y', '_', 'i', 'd'])),
            int_field(lookup(d, seq!['a', 'c', 'q', 'u', 'i', 'r', 'e', 'd', '_', 'c', 'o', 'm', 'p', 'a', 'n', 'y', '_', 'i', 'd'])),
            bool_field(lookup(d, seq!['m', 'e', 'r', 'g', 'e', 'd', '_', 'i', 'n', 't', 'o', '_', 'p', 'a', 'r', 'e', 'n', 't', '_', 'c', 'o', 'm', 'p', 'a', 'n', 'y'])),
        ) {
            (Some(parent_company_id), Some(acquired_company_id), Some(merged_into_parent_company)) => Ok(
                DataModel::CompanyAcquisition {
                    parent_company_id,
                    acquired_company_id,
                    merged_into_parent_company,
                },
            ),
            _ => Err(DecodeError::SchemaMismatch),
        }
    } else if tag == tag_employment() {
        match (
            int_field(lookup(d, seq!['c', 'o', 'm', 'p', 'a', 'n', 'y', '_', 'i', 'd'])),
            int_field(lookup(d, seq!['p', 'e', 'r', 's', 'o', 'n', '_', 'i', 'd'])),
            text_field(lookup(d, seq!['e', 'm', 'p', 'l', 'o', 'y', 'm', 'e', 'n', 't', '_', 't', 'i', 't', 'l', 'e'])),
            date_field(lookup(d, seq!['s', 't', 'a', 'r', 't', '_', 'd', 'a', 't', 'e'])),
            date_field(lookup(d, seq!['e', 'n', 'd', '_', 'd', 'a', 't', 'e'])),
        ) {
            (
                Some(company_id),
                Some(person_id),
                Some(employment_title),
                Some(start_date),
                Some(end_date),
            ) => Ok(
                DataModel::PersonEmployment {
                    company_id,
                    person_id,
                    employment_title,
                    start_date,
                    end_date,
                },
            ),
            _ => Err(DecodeError::SchemaMismatch),
        }
    } else {
        Err(DecodeError::UnknownVariant)
    }
}

pub open spec fn is_known_tag(tag: Seq<char>) -> bool {
    tag == tag_person() || tag == tag_company() || tag == tag_acquisition() || tag == tag_employment()
}

/// What a line decodes to.
pub open spec fn decode_spec(line: Seq<char>) -> Result<MessageModel, DecodeError> {
    match parse_document(line) {
        None => Err(DecodeError::MalformedSyntax),
        Some(doc) => match lookup(doc, seq!['t', 'y', 'p', 'e']) {
            Some(Field::Scalar(Scalar::Str(tag))) => if !is_known_tag(tag) {
                Err(DecodeError::UnknownVariant)
            } else {
                match lookup(doc, seq!['d', 'a', 't', 'a']) {
                    Some(Field::Object(d)) => match decode_data(tag, d) {
                        Ok(data) => Ok(MessageModel { type_: tag, data }),
                        Err(e) => Err(e),
                    },
                    _ => Err(DecodeError::SchemaMismatch),
                }
            },
            _ => Err(DecodeError::SchemaMismatch),
        },
    }
}

/// A decoded message's type tag always names the record it carries.
pub proof fn lemma_decoded_tag(line: Seq<char>)
    ensures
        decode_spec(line) matches Ok(m) ==> m.type_ == tag_of(m.data),
{
}

/// Relies on chrono's `FromStr` for `DateTime<Utc>`, the parser that chrono's
/// serde support uses for this type: the instant a text names, if any.
#[verifier::external_body]
fn parse_utc(text: &str) -> (r: Option<Timestamp>)
    ensures
        match r {
            Some(t) => utc_instant(text@) == Some((t.secs, t.nanos)),
            None => utc_instant(text@) is None,
        },
{
    match text.parse::<chrono::DateTime<chrono::Utc>>() {
        Ok(d) => Some(Timestamp { secs: d.timestamp(), nanos: d.timestamp_subsec_nanos() }),
        Err(_) => None,
    }
}

/// Relies on `String::push`: appends one character.
#[verifier::external_body]
pub(crate) fn push_char(s: &mut String, c: char)
    ensures
        final(s)@ == old(s)@.push(c),
{
    s.push(c)
}

pub(crate) fn string_of(v: &Vec<char>) -> (r: String)
    ensures
        r@ == v@,
{
    let mut r = String::new();
    let mut k: usize = 0;
    while k < v.len()
        invariant
            k <= v@.len(),
            r@ == v@.subrange(0, k as int),
        decreases v@.len() - k,
    {
        push_char(&mut r, v[k]);
        k = k + 1;
        assert(r@ =~= v@.subrange(0, k as int));
    }
    assert(v@.subrange(0, v@.len() as int) =~= v@);
    r
}

pub(crate) fn chars_of(line: &str) -> (r: Vec<char>)
    ensures
        r@ == line@,
{
    broadcast use vstd::string::group_string_axioms;

    let mut it = line.chars();
    let mut r: Vec<char> = Vec::new();
    loop
        invariant
            r@ + it.remaining() == line@,
            it.obeys_prophetic_iter_laws(),
            it.decrease() is Some,
        decreases it.decrease()->0,
    {
        match it.next() {
            Some(c) => {
                let ghost before = r@;
                r.push(c);
                assert(r@ + it.remaining() =~= before + (seq![c] + it.remaining()));
            },
            None => {
                assert(r@ =~= line@);
                return r;
            },
        }
    }
}

fn chars_eq(a: &Vec<char>, b: &Vec<char>) -> (r: bool)
    ensures
        r == (a@ == b@),
{
    if a.len() != b.len() {
        return false;
    }
    let mut k: usize = 0;
    while k < a.len()
        invariant
            a@.len() == b@.len(),
            k <= a@.len(),
            forall|j: int| 0 <= j < k ==> a@[j] == b@[j],
        decreases a@.len() - k,
    {
        if a[k] != b[k] {
            return false;
        }
        k = k + 1;
    }
    assert(a@ =~= b@);
    true
}

/// The index of the first member named `key`.
fn find_key<T>(m: &Vec<(Vec<char>, T)>, key: &Vec<char>) -> (r: Option<usize>)
    ensures
        match r {
            Some(i) => i < m@.len() && m@[i as int].0@ == key@ && forall|j: int|
                0 <= j < i ==> (#[trigger] m@[j]).0@ != key@,
            None => forall|j: int| 0 <= j < m@.len() ==> (#[trigger] m@[j]).0@ != key@,
        },
{
    let mut k: usize = 0;
    while k < m.len()
        invariant
            k <= m@.len(),
            forall|j: int| 0 <= j < k ==> (#[trigger] m@[j]).0@ != key@,
        decreases m@.len() - k,
    {
        if chars_eq(&m[k].0, key) {
            return Some(k);
        }
        k = k + 1;
    }
    None
}

proof fn lemma_lookup_skip<V>(m: Seq<(Seq<char>, V)>, key: Seq<char>, k: int, i: int)
    requires
        0 <= k <= i <= m.len(),
        forall|j: int| k <= j < i ==> (#[trigger] m[j]).0 != key,
    ensures
        lookup_from(m, key, k) == lookup_from(m, key, i),
    decreases i - k,
{
    if k < i {
        lemma_lookup_skip(m, key, k + 1, i);
    }
}

proof fn lemma_find_key_scalars(m: Seq<(Vec<char>, JsonScalar)>, key: Seq<char>, r: Option<usize>)
    requires
        match r {
            Some(i) => i < m.len() && m[i as int].0@ == key && forall|j: int|
                0 <= j < i ==> (#[trigger] m[j]).0@ != key,
            None => forall|j: int| 0 <= j < m.len() ==> (#[trigger] m[j]).0@ != key,
        },
    ensures
        match r {
            Some(i) => lookup(scalars_view(m), key) == Some(m[i as int].1@),
            None => lookup(scalars_view(m), key) is None,
        },
{
    let v = scalars_view(m);
    match r {
        Some(i) => {
            assert forall|j: int| 0 <= j < i implies (#[trigger] v[j]).0 != key by {
                assert(m[j].0@ != key);
            }
            lemma_lookup_skip(v, key, 0, i as int);
        },
        None => {
            assert forall|j: int| 0 <= j < v.len() implies (#[trigger] v[j]).0 != key by {
                assert(m[j].0@ != key);
            }
            lemma_lookup_skip(v, key, 0, v.len() as int);
        },
    }
}

proof fn lemma_find_key_fields(m: Seq<(Vec<char>, JsonField)>, key: Seq<char>, r: Option<usize>)
    requires
        match r {
            Some(i) => i < m.len() && m[i as int].0@ == key && forall|j: int|
                0 <= j < i ==> (#[trigger] m[j]).0@ != key,
            None => forall|j: int| 0 <= j < m.len() ==> (#[trigger] m[j]).0@ != key,
        },
    ensures
        match r {
            Some(i) => lookup(fields_view(m), key) == Some(m[i as int].1@),
            None => lookup(fields_view(m), key) is None,
        },
{
    let v = fields_view(m);
    match r {
        Some(i) => {
            assert forall|j: int| 0 <= j < i implies (#[trigger] v[j]).0 != key by {
                assert(m[j].0@ != key);
            }
            lemma_lookup_skip(v, key, 0, i as int);
        },
        None => {
            assert forall|j: int| 0 <= j < v.len() implies (#[trigger] v[j]).0 != key by {
                assert(m[j].0@ != key);
            }
            lemma_lookup_skip(v, key, 0, v.len() as int);
        },
    }
}

fn get_int(d: &Vec<(Vec<char>, JsonScalar)>, key: &Vec<char>) -> (r: Option<i32>)
    ensures
        r == int_field(lookup(scalars_view(d@), key@)),
{
    let i = find_key(d, key);
    proof {
        lemma_find_key_scalars(d@, key@, i);
    }
    match i {
        Some(i) => match &d[i].1 {
            JsonScalar::Int(v) => Some(*v),
            _ => None,
        },
        None => None,
    }
}

fn get_bool(d: &Vec<(Vec<char>, JsonScalar)>, key: &Vec<char>) -> (r: Option<bool>)
    ensures
        r == bool_field(lookup(scalars_view(d@), key@)),
{
    let i = find_key(d, key);
    proof {
        lemma_find_key_scalars(d@, key@, i);
    }
    match i {
        Some(i) => match &d[i].1 {
            JsonScalar::Bool(b) => Some(*b),
            _ => None,
        },
        None => None,
    }
}

fn get_opt_int(d: &Vec<(Vec<char>, JsonScalar)>, key: &Vec<char>) -> (r: Option<Option<i32>>)
    ensures
        r == opt_int_field(lookup(scalars_view(d@), key@)),
{
    let i = find_key(d, key);
    proof {
        lemma_find_key_scalars(d@, key@, i);
    }
    match i {
        Some(i) => match &d[i].1 {
            JsonScalar::Null => Some(None),
            JsonScalar::Int(v) => Some(Some(*v)),
            _ => None,
        },
        None => Some(None),
    }
}

fn get_text(d: &Vec<(Vec<char>, JsonScalar)>, key: &Vec<char>) -> (r: Option<String>)
    ensures
        match r {
            Some(t) => text_field(lookup(scalars_view(d@), key@)) == Some(t@),
            None => text_field(lookup(scalars_view(d@), key@)) is None,
        },
{
    let i = find_key(d, key);
    proof {
        lemma_find_key_scalars(d@, key@, i);
    }
    match i {
        Some(i) => match &d[i].1 {
            JsonScalar::Str(t) => Some(string_of(t)),
            _ => None,
        },
        None => None,
    }
}

fn get_date(d: &Vec<(Vec<char>, JsonScalar)>, key: &Vec<char>) -> (r: Option<Option<Timestamp>>)
    ensures
        r == date_field(lookup(scalars_view(d@), key@)),
{
    let i = find_key(d, key);
    proof {
        lemma_find_key_scalars(d@, key@, i);
    }
    match i {
        Some(i) => match &d[i].1 {
            JsonScalar::Null => Some(None),
            JsonScalar::Str(t) => {
                let text = string_of(t);
                match parse_utc(text.as_str()) {
                    Some(ts) => Some(Some(ts)),
                    None => None,
                }
            },
            _ => None,
        },
        None => Some(None),
    }
}

fn decode_data_exec(tag: &Vec<char>, d: &Vec<(Vec<char>, JsonScalar)>) -> (r: Result<MessageData, DecodeError>)
    ensures
        match r {
            Ok(x) => decode_data(tag@, scalars_view(d@)) == Ok::<DataModel, DecodeError>(x@),
            Err(e) => decode_data(tag@, scalars_view(d@)) == Err::<DataModel, DecodeError>(e),
        },
{
    if chars_eq(tag, &vec!['P', 'e', 'r', 's', 'o', 'n']) {
        match (get_int(d, &vec!['p', 'e', 'r', 's', 'o', 'n', '_', 'i', 'd']), get_text(d, &vec!['n', 'a', 'm', 'e'])) {
            (Some(person_id), Some(name)) => Ok(MessageData::Person(Person { person_id, name })),
            _ => Err(DecodeError::SchemaMismatch),
        }
    } else if chars_eq(tag, &vec!['C', 'o', 'm', 'p', 'a', 'n', 'y']) {
        match (
            get_int(d, &vec!['c', 'o', 'm', 'p', 'a', 'n', 'y', '_', 'i', 'd']),
            get_text(d, &vec!['c', 'o', 'm', 'p', 'a', 'n', 'y', '_', 'n', 'a', 'm', 'e']),
            get_opt_int(d, &vec!['h', 'e', 'a', 'd', 'c', 'o', 'u', 'n', 't']),
        ) {
            (Some(company_id), Some(company_name), Some(headcount)) => Ok(
                MessageData::Company(Company { company_id, company_name, headcount }),
            ),
            _ => Err(DecodeError::SchemaMismatch),
        }
    } else if chars_eq(tag, &vec!['C', 'o', 'm', 'p', 'a', 'n', 'y', 'A', 'c', 'q', 'u', 'i', 's', 'i', 't', 'i', 'o', 'n']) {
        match (
            get_int(d, &vec!['p', 'a', 'r', 'e', 'n', 't', '_', 'c', 'o', 'm', 'p', 'a', 'n', 'y', '_', 'i', 'd']),
            get_int(d, &vec!['a', 'c', 'q', 'u', 'i', 'r', 'e', 'd', '_', 'c', 'o', 'm', 'p', 'a', 'n', 'y', '_', 'i', 'd']),
            get_bool(d, &vec!['m', 'e', 'r', 'g', 'e', 'd', '_', 'i', 'n', 't', 'o', '_', 'p', 'a', 'r', 'e', 'n', 't', '_', 'c', 'o', 'm', 'p', 'a', 'n', 'y']),
        ) {
            (Some(parent_company_id), Some(acquired_company_id), Some(merged_into_parent_company)) => Ok(
                MessageData::CompanyAcquisition(
                    CompanyAcquisition {
                        parent_company_id,
                        acquired_company_id,
                        merged_into_parent_company,
                    },
                ),
            ),
            _ => Err(DecodeError::SchemaMismatch),
        }
    } else if chars_eq(tag, &vec!['P', 'e', 'r', 's', 'o', 'n', 'E', 'm', 'p', 'l', 'o', 'y', 'm', 'e', 'n', 't']) {
        match (
            get_int(d, &vec!['c', 'o', 'm', 'p', 'a', 'n', 'y', '_', 'i', 'd']),
            get_int(d, &vec!['p', 'e', 'r', 's', 'o', 'n', '_', 'i', 'd']),
            get_text(d, &vec!['e', 'm', 'p', 'l', 'o', 'y', 'm', 'e', 'n', 't', '_', 't', 'i', 't', 'l', 'e']),
            get_date(d, &vec!['s', 't', 'a', 'r', 't', '_', 'd', 'a', 't', 'e']),
            get_date(d, &vec!['e', 'n', 'd', '_', 'd', 'a', 't', 'e']),
        ) {
            (
                Some(company_id),
                Some(person_id),
                Some(employment_title),
                Some(start_date),
                Some(end_date),
            ) => Ok(
                MessageData::PersonEmployment(
                    PersonEmployment {
                        company_id,
                        person_id,
                        employment_title,
                        start_date,
                        end_date,
                    },
                ),
            ),
            _ => Err(DecodeError::SchemaMismatch),
        }
    } else {
        Err(DecodeError::UnknownVariant)
    }
}

/// Decodes one line into a typed message.
pub fn decode(line: &str) -> (r: Result<Message, DecodeError>)
    ensures
        match r {
            Ok(m) => decode_spec(line@) == Ok::<MessageModel, DecodeError>(m@),
            Err(e) => decode_spec(line@) == Err::<MessageModel, DecodeError>(e),
        },
{
    let s = chars_of(line);
    let doc = match parse_line(&s) {
        Some(doc) => doc,
        None => {
            return Err(DecodeError::MalformedSyntax);
        },
    };
    let ti = find_key(&doc, &vec!['t', 'y', 'p', 'e']);
    proof {
        lemma_find_key_fields(doc@, seq!['t', 'y', 'p', 'e'], ti);
    }
    let tag: &Vec<char> = match ti {
        Some(i) => match &doc[i].1 {
            JsonField::Scalar(JsonScalar::Str(t)) => t,
            _ => {
                return Err(DecodeError::SchemaMismatch);
            },
        },
        None => {
            return Err(DecodeError::SchemaMismatch);
        },
    };
    if !(chars_eq(tag, &vec!['P', 'e', 'r', 's', 'o', 'n']) || chars_eq(tag, &vec!['C', 'o', 'm', 'p', 'a', 'n', 'y']) || chars_eq(
        tag,
        &vec!['C', 'o', 'm', 'p', 'a', 'n', 'y', 'A', 'c', 'q', 'u', 'i', 's', 'i', 't', 'i', 'o', 'n'],
    ) || chars_eq(tag, &vec!['P', 'e', 'r', 's', 'o', 'n', 'E', 'm', 'p', 'l', 'o', 'y', 'm', 'e', 'n', 't'])) {
        return Err(DecodeError::UnknownVariant);
    }
    let di = find_key(&doc, &vec!['d', 'a', 't', 'a']);
    proof {
        lemma_find_key_fields(doc@, seq!['d', 'a', 't', 'a'], di);
    }
    let d: &Vec<(Vec<char>, JsonScalar)> = match di {
        Some(i) => match &doc[i].1 {
            JsonField::Object(d) => d,
            _ => {
                return Err(DecodeError::SchemaMismatch);
            },
        },
        None => {
            return Err(DecodeError::SchemaMismatch);
        },
    };
    match decode_data_exec(tag, d) {
        Ok(data) => Ok(Message { type_: string_of(tag), data }),
        Err(e) => Err(e),
    }
}

} // verus!
