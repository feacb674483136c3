//! The line grammar: a JSON object whose member values are strings,
//! numbers, `true`, `false`, `null`, or objects of such scalars.
//!
//! Each `spec fn` below states the grammar over a sequence of characters and
//! a position; each executable parser returns exactly what its spec gives.
use vstd::prelude::*;

verus! {

/// A scalar value as the grammar reads it. `Int` holds an integer written
/// without fraction or exponent that fits in an `i32`; `Number` is any other
/// well-formed number.
pub enum Scalar {
    Null,
    Bool(bool),
    Int(i32),
    Number,
    Str(Seq<char>),
}

/// The value of a member of the outer object.
pub enum Field {
    Scalar(Scalar),
    Object(Seq<(Seq<char>, Scalar)>),
}

#[derive(Debug, Clone, PartialEq, Eq)]
pub enum JsonScalar {
    Null,
    Bool(bool),
    Int(i32),
    Number,
    Str(Vec<char>),
}

#[derive(Debug, Clone, PartialEq, Eq)]
pub enum JsonField {
    Scalar(JsonScalar),
    Object(Vec<(Vec<char>, JsonScalar)>),
}

impl View for JsonScalar {
    type V = Scalar;

    open spec fn view(&self) -> Scalar {
        match self {
            JsonScalar::Null => Scalar::Null,
            JsonScalar::Bool(b) => Scalar::Bool(*b),
            JsonScalar::Int(v) => Scalar::Int(*v),
            JsonScalar::Number => Scalar::Number,
            JsonScalar::Str(t) => Scalar::Str(t@),
        }
    }
}

pub open spec fn scalars_view(m: Seq<(Vec<char>, JsonScalar)>) -> Seq<(Seq<char>, Scalar)> {
    m.map_values(|p: (Vec<char>, JsonScalar)| (p.0@, p.1@))
}

impl View for JsonField {
    type V = Field;

    open spec fn view(&self) -> Field {
        match self {
            JsonField::Scalar(v) => Field::Scalar(v@),
            JsonField::Object(m) => Field::Object(scalars_view(m@)),
        }
    }
}

pub open spec fn fields_view(m: Seq<(Vec<char>, JsonField)>) -> Seq<(Seq<char>, Field)> {
    m.map_values(|p: (Vec<char>, JsonField)| (p.0@, p.1@))
}

pub open spec fn is_json_ws(c: char) -> bool {
    c == ' ' || c == '\t' || c == '\n' || c == '\r'
}

/// The first position at or after `i` that holds no whitespace.
pub open spec fn skip_ws(s: Seq<char>, i: int) -> int
    decreases s.len() - i,
{
    if 0 <= i < s.len() && is_json_ws(s[i]) {
        skip_ws(s, i + 1)
    } else {
        i
    }
}

pub open spec fn is_digit(c: char) -> bool {
    '0' <= c && c <= '9'
}

pub open spec fn digit_val(c: char) -> int {
    c as int - '0' as int
}

/// The first position at or after `i` that holds no decimal digit.
pub open spec fn digits_end(s: Seq<char>, i: int) -> int
    decreases s.len() - i,
{
    if 0 <= i < s.len() && is_digit(s[i]) {
        digits_end(s, i + 1)
    } else {
        i
    }
}

/// The value of the decimal digits `s[a..b]`.
pub open spec fn digits_val(s: Seq<char>, a: int, b: int) -> int
    decreases b - a,
{
    if b <= a {
        0
    } else {
        10 * digits_val(s, a, b - 1) + digit_val(s[b - 1])
    }
}

pub open spec fn at(s: Seq<char>, i: int, c: char) -> bool {
    0 <= i < s.len() && s[i] == c
}

/// A number token starting at `i`: `-? (0 | [1-9][0-9]*) (. [0-9]+)? ([eE] [+-]? [0-9]+)?`.
pub open spec fn parse_number(s: Seq<char>, i: int) -> Option<(Scalar, int)> {
    let neg = at(s, i, '-');
    let a = if neg { i + 1 } else { i };
    if !(0 <= a < s.len() && is_digit(s[a])) {
        None
    } else {
        let b = if s[a] == '0' { a + 1 } else { digits_end(s, a) };
        let frac = at(s, b, '.');
        if frac && !(b + 1 < s.len() && is_digit(s[b + 1])) {
            None
        } else {
            let c = if frac { digits_end(s, b + 1) } else { b };
            let exp = at(s, c, 'e') || at(s, c, 'E');
            let d = if at(s, c + 1, '+') || at(s, c + 1, '-') { c + 2 } else { c + 1 };
            if exp && !(d < s.len() && is_digit(s[d])) {
                None
            } else {
                let e = if exp { digits_end(s, d) } else { c };
                let v = if neg { -digits_val(s, a, b) } else { digits_val(s, a, b) };
                if !frac && !exp && i32::MIN <= v <= i32::MAX {
                    Some((Scalar::Int(v as i32), e))
                } else {
                    Some((Scalar::Number, e))
                }
            }
        }
    }
}

/// A control character, which a string literal may hold only escaped.
pub open spec fn is_control(c: char) -> bool {
    code_of(c) < 32
}

pub open spec fn hex_val(c: char) -> int {
    if '0' <= c && c <= '9' {
        c as int - '0' as int
    } else if 'a' <= c && c <= 'f' {
        c as int - 'a' as int + 10
    } else if 'A' <= c && c <= 'F' {
        c as int - 'A' as int + 10
    } else {
        -1
    }
}

/// The value of four hexadecimal digits at `i`, or -1.
pub open spec fn hex4(s: Seq<char>, i: int) -> int {
    if 0 <= i && i + 4 <= s.len() && hex_val(s[i]) >= 0 && hex_val(s[i + 1]) >= 0 && hex_val(
        s[i + 2],
    ) >= 0 && hex_val(s[i + 3]) >= 0 {
        4096 * hex_val(s[i]) + 256 * hex_val(s[i + 1]) + 16 * hex_val(s[i + 2]) + hex_val(s[i + 3])
    } else {
        -1
    }
}

/// The scalar value of a character.
pub open spec fn code_of(c: char) -> int {
    (c as u32) as int
}

/// A character is the one whose scalar value it has.
pub proof fn lemma_char_of_code(c: char)
    ensures
        char_of(code_of(c)) == c,
{
    let d = char_of(code_of(c));
    assert(code_of(d) == code_of(c));
    vstd::utf8::char_u32_cast(c, c as u32);
    vstd::utf8::char_u32_cast(d, d as u32);
}

/// The character whose scalar value is `v`.
pub open spec fn char_of(v: int) -> char {
    choose|c: char| #[trigger] code_of(c) == v
}

/// The character that a one-letter escape after a backslash stands for.
pub open spec fn short_escape(c: char) -> Option<char> {
    if c == '"' {
        Some('"')
    } else if c == '\\' {
        Some('\\')
    } else if c == '/' {
        Some('/')
    } else if c == 'b' {
        Some('\x08')
    } else if c == 'f' {
        Some('\x0c')
    } else if c == 'n' {
        Some('\n')
    } else if c == 'r' {
        Some('\r')
    } else if c == 't' {
        Some('\t')
    } else {
        None
    }
}

/// A `\u` escape whose hex digits start at `i`: one character from a
/// non-surrogate code, or from a high surrogate followed by `\u` and a low
/// surrogate; with the position after it.
pub open spec fn unicode_escape(s: Seq<char>, i: int) -> Option<(char, int)> {
    let h = hex4(s, i);
    if h < 0 {
        None
    } else if 0xD800 <= h < 0xDC00 {
        let l = hex4(s, i + 6);
        if at(s, i + 4, '\\') && at(s, i + 5, 'u') && 0xDC00 <= l < 0xE000 {
            Some((char_of(0x10000 + (h - 0xD800) * 1024 + (l - 0xDC00)), i + 10))
        } else {
            None
        }
    } else if 0xDC00 <= h < 0xE000 {
        None
    } else {
        Some((char_of(h), i + 4))
    }
}

/// The rest of a string literal from `i`, `acc` holding what was read so far:
/// the text and the position after the closing quote.
pub open spec fn str_from(s: Seq<char>, i: int, acc: Seq<char>) -> Option<(Seq<char>, int)>
    decreases s.len() - i,
{
    if !(0 <= i < s.len()) {
        None
    } else if s[i] == '"' {
        Some((acc, i + 1))
    } else if s[i] == '\\' {
        if at(s, i + 1, 'u') {
            match unicode_escape(s, i + 2) {
                Some((c, e)) => if e > i {
                    str_from(s, e, acc.push(c))
                } else {
                    None
                },
                None => None,
            }
        } else if i + 1 < s.len() && short_escape(s[i + 1]) is Some {
            str_from(s, i + 2, acc.push(short_escape(s[i + 1])->0))
        } else {
            None
        }
    } else if is_control(s[i]) {
        None
    } else {
        str_from(s, i + 1, acc.push(s[i]))
    }
}

/// A string literal whose opening quote is at `i`.
pub open spec fn parse_string(s: Seq<char>, i: int) -> Option<(Seq<char>, int)> {
    if at(s, i, '"') {
        str_from(s, i + 1, seq![])
    } else {
        None
    }
}

pub open spec fn word_at(s: Seq<char>, i: int, w: Seq<char>) -> bool {
    0 <= i && i + w.len() <= s.len() && s.subrange(i, i + w.len()) == w
}

/// A scalar starting at `i`.
pub open spec fn parse_scalar(s: Seq<char>, i: int) -> Option<(Scalar, int)> {
    if at(s, i, '"') {
        match parse_string(s, i) {
            Some((t, e)) => Some((Scalar::Str(t), e)),
            None => None,
        }
    } else if word_at(s, i, seq!['t', 'r', 'u', 'e']) {
        Some((Scalar::Bool(true), i + 4))
    } else if word_at(s, i, seq!['f', 'a', 'l', 's', 'e']) {
        Some((Scalar::Bool(false), i + 5))
    } else if word_at(s, i, seq!['n', 'u', 'l', 'l']) {
        Some((Scalar::Null, i + 4))
    } else {
        parse_number(s, i)
    }
}

/// A member's key and colon, from its opening quote at `i`: the key and the
/// position of the value.
pub open spec fn parse_key(s: Seq<char>, i: int) -> Option<(Seq<char>, int)> {
    match parse_string(s, i) {
        Some((k, e)) => {
            let c = skip_ws(s, e);
            if at(s, c, ':') {
                Some((k, skip_ws(s, c + 1)))
            } else {
                None
            }
        },
        None => None,
    }
}

/// The members of an object of scalars from the member at `i` on, `acc`
/// holding those read so far: the members and the position after `}`.
pub open spec fn scalar_members(s: Seq<char>, i: int, acc: Seq<(Seq<char>, Scalar)>) -> Option<
    (Seq<(Seq<char>, Scalar)>, int),
>
    decreases s.len() - i,
{
    match parse_key(s, i) {
        Some((k, p)) => match parse_scalar(s, p) {
            Some((v, q)) => {
                let r = skip_ws(s, q);
                let n = skip_ws(s, r + 1);
                if at(s, r, '}') {
                    Some((acc.push((k, v)), r + 1))
                } else if at(s, r, ',') && i < n && n <= s.len() {
                    scalar_members(s, n, acc.push((k, v)))
                } else {
                    None
                }
            },
            None => None,
        },
        None => None,
    }
}

/// An object of scalars whose `{` is at `i`.
pub open spec fn parse_scalar_object(s: Seq<char>, i: int) -> Option<(Seq<(Seq<char>, Scalar)>, int)> {
    let j = skip_ws(s, i + 1);
    if !at(s, i, '{') {
        None
    } else if at(s, j, '}') {
        Some((seq![], j + 1))
    } else {
        scalar_members(s, j, seq![])
    }
}

/// The value of a member of the outer object, starting at `i`.
pub open spec fn parse_field(s: Seq<char>, i: int) -> Option<(Field, int)> {
    if at(s, i, '{') {
        match parse_scalar_object(s, i) {
            Some((m, e)) => Some((Field::Object(m), e)),
            None => None,
        }
    } else {
        match parse_scalar(s, i) {
            Some((v, e)) => Some((Field::Scalar(v), e)),
            None => None,
        }
    }
}

/// The members of the outer object from the member at `i` on.
pub open spec fn field_members(s: Seq<char>, i: int, acc: Seq<(Seq<char>, Field)>) -> Option<
    (Seq<(Seq<char>, Field)>, int),
>
    decreases s.len() - i,
{
    match parse_key(s, i) {
        Some((k, p)) => match parse_field(s, p) {
            Some((v, q)) => {
                let r = skip_ws(s, q);
                let n = skip_ws(s, r + 1);
                if at(s, r, '}') {
                    Some((acc.push((k, v)), r + 1))
                } else if at(s, r, ',') && i < n && n <= s.len() {
                    field_members(s, n, acc.push((k, v)))
                } else {
                    None
                }
            },
            None => None,
        },
        None => None,
    }
}

/// The outer object whose `{` is at `i`.
pub open spec fn parse_field_object(s: Seq<char>, i: int) -> Option<(Seq<(Seq<char>, Field)>, int)> {
    let j = skip_ws(s, i + 1);
    if !at(s, i, '{') {
        None
    } else if at(s, j, '}') {
        Some((seq![], j + 1))
    } else {
        field_members(s, j, seq![])
    }
}

/// A whole line: one outer object, with nothing but whitespace around it.
pub open spec fn parse_document(s: Seq<char>) -> Option<Seq<(Seq<char>, Field)>> {
    match parse_field_object(s, skip_ws(s, 0)) {
        Some((m, e)) => if skip_ws(s, e) == s.len() {
            Some(m)
        } else {
            None
        },
        None => None,
    }
}

/// Relies on `char::from_u32`: the character with scalar value `v`, or none
/// for a surrogate code or a value past U+10FFFF.
#[verifier::external_body]
fn char_from_code(v: u32) -> (r: Option<char>)
    ensures
        r is Some <==> (v < 0xD800 || (0xE000 <= v && v <= 0x10FFFF)),
        r matches Some(c) ==> code_of(c) == v as int,
{
    char::from_u32(v)
}

fn is_ws_char(c: char) -> (r: bool)
    ensures
        r == is_json_ws(c),
{
    c == ' ' || c == '\t' || c == '\n' || c == '\r'
}

fn is_digit_char(c: char) -> (r: bool)
    ensures
        r == is_digit(c),
{
    '0' <= c && c <= '9'
}

fn skip_ws_at(s: &Vec<char>, i: usize) -> (r: usize)
    requires
        i <= s@.len(),
    ensures
        r == skip_ws(s@, i as int),
        i <= r <= s@.len(),
{
    let mut k: usize = i;
    while k < s.len() && is_ws_char(s[k])
        invariant
            i <= k <= s@.len(),
            skip_ws(s@, i as int) == skip_ws(s@, k as int),
        decreases s@.len() - k,
    {
        k = k + 1;
    }
    k
}

fn digits_end_at(s: &Vec<char>, i: usize) -> (r: usize)
    requires
        i <= s@.len(),
    ensures
        r == digits_end(s@, i as int),
        i <= r <= s@.len(),
        forall|j: int| i <= j < r ==> is_digit(#[trigger] s@[j]),
        r < s@.len() ==> !is_digit(s@[r as int]),
{
    let mut k: usize = i;
    while k < s.len() && is_digit_char(s[k])
        invariant
            i <= k <= s@.len(),
            digits_end(s@, i as int) == digits_end(s@, k as int),
            forall|j: int| i <= j < k ==> is_digit(#[trigger] s@[j]),
        decreases s@.len() - k,
    {
        k = k + 1;
    }
    k
}

/// The bound past which a magnitude fits no `i32`.
const MAG_CAP: i64 = 2147483648;

/// The value of the digits `s[a..b]`, or `MAG_CAP + 1` where it exceeds `MAG_CAP`.
fn digits_value(s: &Vec<char>, a: usize, b: usize) -> (m: i64)
    requires
        a <= b <= s@.len(),
        forall|j: int| a <= j < b ==> is_digit(#[trigger] s@[j]),
    ensures
        0 <= m,
        m == if digits_val(s@, a as int, b as int) <= MAG_CAP {
            digits_val(s@, a as int, b as int)
        } else {
            MAG_CAP + 1
        },
{
    let mut m: i64 = 0;
    let mut k: usize = a;
    while k < b
        invariant
            a <= k <= b <= s@.len(),
            forall|j: int| a <= j < b ==> is_digit(#[trigger] s@[j]),
            0 <= digits_val(s@, a as int, k as int),
            0 <= m <= MAG_CAP + 1,
            m == if digits_val(s@, a as int, k as int) <= MAG_CAP {
                digits_val(s@, a as int, k as int)
            } else {
                MAG_CAP + 1
            },
        decreases b - k,
    {
        assert(is_digit(s@[k as int]));
        let d = (s[k] as u32 - '0' as u32) as i64;
        assert(digits_val(s@, a as int, k + 1) == 10 * digits_val(s@, a as int, k as int) + d);
        if m <= MAG_CAP {
            m = m * 10 + d;
            if m > MAG_CAP {
                m = MAG_CAP + 1;
            }
        }
        k = k + 1;
    }
    m
}

fn parse_number_at(s: &Vec<char>, i: usize) -> (r: Option<(JsonScalar, usize)>)
    requires
        i <= s@.len(),
    ensures
        match r {
            Some((v, e)) => parse_number(s@, i as int) == Some((v@, e as int)) && i < e <= s@.len(),
            None => parse_number(s@, i as int) is None,
        },
{
    let n = s.len();
    let neg = i < n && s[i] == '-';
    let a = if neg {
        i + 1
    } else {
        i
    };
    if !(a < n && is_digit_char(s[a])) {
        return None;
    }
    let b = if s[a] == '0' {
        a + 1
    } else {
        digits_end_at(s, a)
    };
    let frac = b < n && s[b] == '.';
    if frac && !(b + 1 < n && is_digit_char(s[b + 1])) {
        return None;
    }
    let c = if frac {
        digits_end_at(s, b + 1)
    } else {
        b
    };
    let exp = c < n && (s[c] == 'e' || s[c] == 'E');
    let d = if exp {
        if c + 1 < n && (s[c + 1] == '+' || s[c + 1] == '-') {
            c + 2
        } else {
            c + 1
        }
    } else {
        c
    };
    if exp && !(d < n && is_digit_char(s[d])) {
        return None;
    }
    let e = if exp {
        digits_end_at(s, d)
    } else {
        c
    };
    let m = digits_value(s, a, b);
    if !frac && !exp && ((neg && m <= MAG_CAP) || (!neg && m < MAG_CAP)) {
        let v: i32 = if neg {
            (-m) as i32
        } else {
            m as i32
        };
        Some((JsonScalar::Int(v), e))
    } else {
        Some((JsonScalar::Number, e))
    }
}

pub(crate) fn is_control_char(c: char) -> (r: bool)
    ensures
        r == is_control(c),
{
    (c as u32) < 32
}

fn hex_digit(c: char) -> (r: i32)
    ensures
        r == hex_val(c),
{
    if '0' <= c && c <= '9' {
        (c as u32 - '0' as u32) as i32
    } else if 'a' <= c && c <= 'f' {
        (c as u32 - 'a' as u32 + 10) as i32
    } else if 'A' <= c && c <= 'F' {
        (c as u32 - 'A' as u32 + 10) as i32
    } else {
        -1
    }
}

fn hex4_at(s: &Vec<char>, i: usize) -> (r: i32)
    requires
        i <= s@.len(),
    ensures
        r == hex4(s@, i as int),
{
    if s.len() - i < 4 {
        return -1;
    }
    let h0 = hex_digit(s[i]);
    let h1 = hex_digit(s[i + 1]);
    let h2 = hex_digit(s[i + 2]);
    let h3 = hex_digit(s[i + 3]);
    if h0 >= 0 && h1 >= 0 && h2 >= 0 && h3 >= 0 {
        4096 * h0 + 256 * h1 + 16 * h2 + h3
    } else {
        -1
    }
}

fn char_at_code(v: u32) -> (r: Option<char>)
    ensures
        r is Some <==> (v < 0xD800 || (0xE000 <= v && v <= 0x10FFFF)),
        r matches Some(c) ==> c == char_of(v as int),
{
    let r = char_from_code(v);
    if let Some(c) = r {
        proof {
            lemma_char_of_code(c);
        }
    }
    r
}

fn unicode_escape_at(s: &Vec<char>, i: usize) -> (r: Option<(char, usize)>)
    requires
        i <= s@.len(),
    ensures
        match r {
            Some((c, e)) => unicode_escape(s@, i as int) == Some((c, e as int)) && i < e <= s@.len(),
            None => unicode_escape(s@, i as int) is None,
        },
{
    let n = s.len();
    let h = hex4_at(s, i);
    if h < 0 {
        None
    } else if 0xD800 <= h && h < 0xDC00 {
        if s.len() - i >= 6 && s[i + 4] == '\\' && s[i + 5] == 'u' {
            let l = hex4_at(s, i + 6);
            if 0xDC00 <= l && l < 0xE000 {
                let v = (0x10000 + (h - 0xD800) * 1024 + (l - 0xDC00)) as u32;
                match char_at_code(v) {
                    Some(c) => Some((c, i + 10)),
                    None => None,
                }
            } else {
                None
            }
        } else {
            None
        }
    } else if 0xDC00 <= h && h < 0xE000 {
        None
    } else {
        match char_at_code(h as u32) {
            Some(c) => {
            assert(i + 4 <= s@.len());
            Some((c, i + 4))
        },
            None => None,
        }
    }
}

fn short_escape_of(c: char) -> (r: Option<char>)
    ensures
        r == short_escape(c),
{
    if c == '"' {
        Some('"')
    } else if c == '\\' {
        Some('\\')
    } else if c == '/' {
        Some('/')
    } else if c == 'b' {
        Some('\x08')
    } else if c == 'f' {
        Some('\x0c')
    } else if c == 'n' {
        Some('\n')
    } else if c == 'r' {
        Some('\r')
    } else if c == 't' {
        Some('\t')
    } else {
        None
    }
}

/// Reads a string literal whose opening quote is at `i`.
fn string_at(s: &Vec<char>, i: usize) -> (r: Option<(Vec<char>, usize)>)
    requires
        i <= s@.len(),
    ensures
        match r {
            Some((t, e)) => parse_string(s@, i as int) == Some((t@, e as int)) && i < e <= s@.len(),
            None => parse_string(s@, i as int) is None,
        },
{
    if !(i < s.len() && s[i] == '"') {
        return None;
    }
    let mut acc: Vec<char> = Vec::new();
    let mut k: usize = i + 1;
    assert(acc@ == Seq::<char>::empty());
    loop
        invariant
            i < k <= s@.len(),
            parse_string(s@, i as int) == str_from(s@, k as int, acc@),
        decreases s@.len() - k,
    {
        if k >= s.len() {
            return None;
        }
        let c = s[k];
        if c == '"' {
            return Some((acc, k + 1));
        } else if c == '\\' {
            if k + 1 < s.len() && s[k + 1] == 'u' {
                match unicode_escape_at(s, k + 2) {
                    Some((ch, e)) => {
                        acc.push(ch);
                        k = e;
                    },
                    None => {
                        return None;
                    },
                }
            } else if k + 1 < s.len() {
                match short_escape_of(s[k + 1]) {
                    Some(ch) => {
                        acc.push(ch);
                        k = k + 2;
                    },
                    None => {
                        return None;
                    },
                }
            } else {
                return None;
            }
        } else if is_control_char(c) {
            return None;
        } else {
            acc.push(c);
            k = k + 1;
        }
    }
}

fn word_at_exec(s: &Vec<char>, i: usize, w: &Vec<char>) -> (r: bool)
    requires
        i <= s@.len(),
    ensures
        r == word_at(s@, i as int, w@),
{
    if s.len() - i < w.len() {
        return false;
    }
    let n = s.len();
    let mut k: usize = 0;
    while k < w.len()
        invariant
            n == s@.len(),
            i + w@.len() <= s@.len(),
            k <= w@.len(),
            forall|j: int| 0 <= j < k ==> s@[i + j] == #[trigger] w@[j],
        decreases w@.len() - k,
    {
        assert(i + k < s@.len());
        if s[i + k] != w[k] {
            assert(s@.subrange(i as int, i + w@.len())[k as int] != w@[k as int]);
            return false;
        }
        k = k + 1;
    }
    assert(s@.subrange(i as int, i + w@.len()) =~= w@);
    true
}

fn scalar_at(s: &Vec<char>, i: usize) -> (r: Option<(JsonScalar, usize)>)
    requires
        i <= s@.len(),
    ensures
        match r {
            Some((v, e)) => parse_scalar(s@, i as int) == Some((v@, e as int)) && i < e <= s@.len(),
            None => parse_scalar(s@, i as int) is None,
        },
{
    if i < s.len() && s[i] == '"' {
        match string_at(s, i) {
            Some((t, e)) => Some((JsonScalar::Str(t), e)),
            None => None,
        }
    } else if word_at_exec(s, i, &vec!['t', 'r', 'u', 'e']) {
        Some((JsonScalar::Bool(true), i + 4))
    } else if word_at_exec(s, i, &vec!['f', 'a', 'l', 's', 'e']) {
        Some((JsonScalar::Bool(false), i + 5))
    } else if word_at_exec(s, i, &vec!['n', 'u', 'l', 'l']) {
        Some((JsonScalar::Null, i + 4))
    } else {
        parse_number_at(s, i)
    }
}

fn key_at(s: &Vec<char>, i: usize) -> (r: Option<(Vec<char>, usize)>)
    requires
        i <= s@.len(),
    ensures
        match r {
            Some((k, p)) => parse_key(s@, i as int) == Some((k@, p as int)) && i < p <= s@.len(),
            None => parse_key(s@, i as int) is None,
        },
{
    match string_at(s, i) {
        Some((k, e)) => {
            let c = skip_ws_at(s, e);
            if c < s.len() && s[c] == ':' {
                Some((k, skip_ws_at(s, c + 1)))
            } else {
                None
            }
        },
        None => None,
    }
}

fn scalar_object_at(s: &Vec<char>, i: usize) -> (r: Option<(Vec<(Vec<char>, JsonScalar)>, usize)>)
    requires
        i < s@.len(),
        s@[i as int] == '{',
    ensures
        match r {
            Some((m, e)) => parse_scalar_object(s@, i as int) == Some((scalars_view(m@), e as int))
                && i < e <= s@.len(),
            None => parse_scalar_object(s@, i as int) is None,
        },
{
    let n = s.len();
    let j = skip_ws_at(s, i + 1);
    let mut acc: Vec<(Vec<char>, JsonScalar)> = Vec::new();
    assert(scalars_view(acc@) =~= seq![]);
    if j < s.len() && s[j] == '}' {
        return Some((acc, j + 1));
    }
    let mut k: usize = j;
    loop
        invariant
            i < k <= s@.len(),
            parse_scalar_object(s@, i as int) == scalar_members(s@, k as int, scalars_view(acc@)),
        decreases s@.len() - k,
    {
        match key_at(s, k) {
            None => {
                return None;
            },
            Some((key, p)) => match scalar_at(s, p) {
                None => {
                    return None;
                },
                Some((v, q)) => {
                    let r = skip_ws_at(s, q);
                    let ghost before = acc@;
                    acc.push((key, v));
                    assert(scalars_view(acc@) =~= scalars_view(before).push((key@, v@)));
                    if r < s.len() && s[r] == '}' {
                        return Some((acc, r + 1));
                    } else if r < s.len() && s[r] == ',' {
                        k = skip_ws_at(s, r + 1);
                    } else {
                        return None;
                    }
                },
            },
        }
    }
}

fn field_at(s: &Vec<char>, i: usize) -> (r: Option<(JsonField, usize)>)
    requires
        i <= s@.len(),
    ensures
        match r {
            Some((v, e)) => parse_field(s@, i as int) == Some((v@, e as int)) && i < e <= s@.len(),
            None => parse_field(s@, i as int) is None,
        },
{
    if i < s.len() && s[i] == '{' {
        match scalar_object_at(s, i) {
            Some((m, e)) => Some((JsonField::Object(m), e)),
            None => None,
        }
    } else {
        match scalar_at(s, i) {
            Some((v, e)) => Some((JsonField::Scalar(v), e)),
            None => None,
        }
    }
}

fn field_object_at(s: &Vec<char>, i: usize) -> (r: Option<(Vec<(Vec<char>, JsonField)>, usize)>)
    requires
        i < s@.len(),
        s@[i as int] == '{',
    ensures
        match r {
            Some((m, e)) => parse_field_object(s@, i as int) == Some((fields_view(m@), e as int))
                && i < e <= s@.len(),
            None => parse_field_object(s@, i as int) is None,
        },
{
    let n = s.len();
    let j = skip_ws_at(s, i + 1);
    let mut acc: Vec<(Vec<char>, JsonField)> = Vec::new();
    assert(fields_view(acc@) =~= seq![]);
    if j < s.len() && s[j] == '}' {
        return Some((acc, j + 1));
    }
    let mut k: usize = j;
    loop
        invariant
            i < k <= s@.len(),
            parse_field_object(s@, i as int) == field_members(s@, k as int, fields_view(acc@)),
        decreases s@.len() - k,
    {
        match key_at(s, k) {
            None => {
                return None;
            },
            Some((key, p)) => match field_at(s, p) {
                None => {
                    return None;
                },
                Some((v, q)) => {
                    let r = skip_ws_at(s, q);
                    let ghost before = acc@;
                    acc.push((key, v));
                    assert(fields_view(acc@) =~= fields_view(before).push((key@, v@)));
                    if r < s.len() && s[r] == '}' {
                        return Some((acc, r + 1));
                    } else if r < s.len() && s[r] == ',' {
                        k = skip_ws_at(s, r + 1);
                    } else {
                        return None;
                    }
                },
            },
        }
    }
}

/// Reads a whole line as one outer object: its members, in the order written.
pub fn parse_line(s: &Vec<char>) -> (r: Option<Vec<(Vec<char>, JsonField)>>)
    ensures
        match r {
            Some(m) => parse_document(s@) == Some(fields_view(m@)),
            None => parse_document(s@) is None,
        },
{
    let i = skip_ws_at(s, 0);
    if !(i < s.len() && s[i] == '{') {
        return None;
    }
    match field_object_at(s, i) {
        Some((m, e)) => if skip_ws_at(s, e) == s.len() {
            Some(m)
        } else {
            None
        },
        None => None,
    }
}

} // verus!
