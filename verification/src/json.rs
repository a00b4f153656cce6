//! JSON, as far as the camera's control protocol uses it: one value per message, written without
//! white space and with the keys in the order they were put in. Integers keep their exact value, and
//! a number with a point or an exponent keeps its lexeme.

use crate::bytes::bytes_eq;
use crate::decimal::{
    are_digits, digit_number, lemma_huge, lemma_tiny, scaled_digits_to_u64, scaled_to_u64,
};
use crate::text::{
    chars_of, decimal, hex2_lower, parse_unsigned, push_decimal, push_hex2_lower, str_eq, string_of,
    unsigned_numeral, utf8_text,
};
use vstd::prelude::*;
use vstd::slice::slice_subrange;
use vstd::utf8::{decode_utf8, encode_scalar, encode_utf8, is_scalar, valid_utf8};

verus! {

pub const TAB: u8 = 0x09;

pub const LINE_FEED: u8 = 0x0A;

pub const CARRIAGE_RETURN: u8 = 0x0D;

pub const SPACE: u8 = 0x20;

pub const QUOTE: u8 = 0x22;

pub const PLUS: u8 = 0x2B;

pub const COMMA: u8 = 0x2C;

pub const MINUS: u8 = 0x2D;

pub const POINT: u8 = 0x2E;

pub const SLASH: u8 = 0x2F;

pub const DIGIT_0: u8 = 0x30;

pub const DIGIT_9: u8 = 0x39;

pub const COLON: u8 = 0x3A;

pub const UPPER_A: u8 = 0x41;

pub const UPPER_E: u8 = 0x45;

pub const UPPER_F: u8 = 0x46;

pub const OPEN_BRACKET: u8 = 0x5B;

pub const BACKSLASH: u8 = 0x5C;

pub const CLOSE_BRACKET: u8 = 0x5D;

pub const LOWER_A: u8 = 0x61;

pub const LOWER_B: u8 = 0x62;

pub const LOWER_E: u8 = 0x65;

pub const LOWER_F: u8 = 0x66;

pub const LOWER_N: u8 = 0x6E;

pub const LOWER_R: u8 = 0x72;

pub const LOWER_T: u8 = 0x74;

pub const LOWER_U: u8 = 0x75;

pub const OPEN_BRACE: u8 = 0x7B;

pub const CLOSE_BRACE: u8 = 0x7D;

/// A number, in the narrowest exact form.
#[derive(Debug, PartialEq, Eq)]
pub enum JsonNumber {
    /// A lexeme of digits alone.
    UInt(u64),
    /// A minus sign and digits.
    Int(i64),
    /// A lexeme with a point or an exponent, as it was written. Its value is the nearest binary64
    /// number; it is compared and written out as this text.
    Float(String),
}

/// A value. Keys keep their order and may repeat.
#[derive(Debug, PartialEq, Eq)]
pub enum Json {
    Null,
    Bool(bool),
    Num(JsonNumber),
    Str(String),
    Array(Vec<Json>),
    Object(Vec<(String, Json)>),
}

/// Why a text is no JSON value.
#[derive(Debug, Clone, Copy, PartialEq, Eq, Structural)]
pub enum JsonError {
    /// It ends before the value does.
    Eof,
    /// This byte cannot stand where it stands.
    UnexpectedByte(u8),
    /// A number does not parse, or is out of range.
    InvalidNumber,
    /// An escape is not one, or names no character.
    InvalidEscape,
    /// A string is not UTF-8.
    InvalidUtf8String,
}

/// What a value stands for.
#[verifier::ext_equal]
pub enum JsonView {
    Null,
    Bool(bool),
    UInt(u64),
    Int(i64),
    Float(Seq<char>),
    Str(Seq<char>),
    Array(Seq<JsonView>),
    Object(Seq<(Seq<char>, JsonView)>),
}

impl Json {
    pub open spec fn view(self) -> JsonView
        decreases self,
    {
        match self {
            Json::Null => JsonView::Null,
            Json::Bool(b) => JsonView::Bool(b),
            Json::Num(JsonNumber::UInt(n)) => JsonView::UInt(n),
            Json::Num(JsonNumber::Int(n)) => JsonView::Int(n),
            Json::Num(JsonNumber::Float(t)) => JsonView::Float(t@),
            Json::Str(t) => JsonView::Str(t@),
            Json::Array(items) => JsonView::Array(
                Seq::new(
                    items@.len(),
                    |i: int|
                        if 0 <= i < items@.len() {
                            items@[i].view()
                        } else {
                            arbitrary()
                        },
                ),
            ),
            Json::Object(entries) => JsonView::Object(
                Seq::new(
                    entries@.len(),
                    |i: int|
                        if 0 <= i < entries@.len() {
                            (entries@[i].0@, entries@[i].1.view())
                        } else {
                            arbitrary()
                        },
                ),
            ),
        }
    }
}

/// What a list of values stands for.
pub open spec fn item_views(items: Seq<Json>) -> Seq<JsonView> {
    Seq::new(items.len(), |i: int| items[i]@)
}

/// What a list of keys and values stands for.
pub open spec fn entry_views(entries: Seq<(String, Json)>) -> Seq<(Seq<char>, JsonView)> {
    Seq::new(entries.len(), |i: int| (entries[i].0@, entries[i].1@))
}

proof fn lemma_array_view(items: Vec<Json>)
    ensures
        Json::Array(items)@ == JsonView::Array(item_views(items@)),
{
    assert(Json::Array(items)@->Array_0 =~= item_views(items@));
}

proof fn lemma_object_view(entries: Vec<(String, Json)>)
    ensures
        Json::Object(entries)@ == JsonView::Object(entry_views(entries@)),
{
    assert(Json::Object(entries)@->Object_0 =~= entry_views(entries@));
}

/// White space between tokens.
pub open spec fn is_ws(b: u8) -> bool {
    b == SPACE || b == LINE_FEED || b == CARRIAGE_RETURN || b == TAB
}

/// `s` without the white space at its head.
pub open spec fn after_ws(s: Seq<u8>) -> Seq<u8>
    decreases s.len(),
{
    if s.len() > 0 && is_ws(s[0]) {
        after_ws(s.skip(1))
    } else {
        s
    }
}

/// The error for a text that does not go on as it must: it has ended, or another byte stands there.
pub open spec fn unexpected(s: Seq<u8>) -> JsonError {
    if s.len() > 0 {
        JsonError::UnexpectedByte(s[0])
    } else {
        JsonError::Eof
    }
}

/// Whether `s` begins with `b`.
pub open spec fn heads(s: Seq<u8>, b: u8) -> bool {
    s.len() > 0 && s[0] == b
}

pub open spec fn is_digit_byte(b: u8) -> bool {
    DIGIT_0 <= b <= DIGIT_9
}

/// How many digits `s` begins with.
pub open spec fn digits_len(s: Seq<u8>) -> int
    decreases s.len(),
{
    if s.len() > 0 && is_digit_byte(s[0]) {
        1 + digits_len(s.skip(1))
    } else {
        0
    }
}

/// ASCII bytes as characters.
pub open spec fn ascii(s: Seq<u8>) -> Seq<char> {
    Seq::new(s.len(), |i: int| s[i] as char)
}

/// The parts of the number that a text begins with.
pub struct NumberShape {
    pub negative: bool,
    /// Digits before the point.
    pub whole: int,
    pub point: bool,
    /// Digits behind the point.
    pub fraction: int,
    pub exponent: bool,
    pub exponent_digits: int,
    /// Length of the lexeme.
    pub end: int,
}

pub open spec fn number_shape(s: Seq<u8>) -> NumberShape {
    let negative = heads(s, MINUS);
    let start: int = if negative {
        1
    } else {
        0
    };
    let whole = digits_len(s.skip(start));
    let p = start + whole;
    let point = p < s.len() && s[p] == POINT;
    let fraction = if point {
        digits_len(s.skip(p + 1))
    } else {
        0
    };
    let q = if point {
        p + 1 + fraction
    } else {
        p
    };
    let exponent = q < s.len() && (s[q] == LOWER_E || s[q] == UPPER_E);
    let x = if exponent && q + 1 < s.len() && (s[q + 1] == PLUS || s[q + 1] == MINUS) {
        q + 2
    } else {
        q + 1
    };
    let exponent_digits = if exponent {
        digits_len(s.skip(x))
    } else {
        0
    };
    let end = if exponent {
        x + exponent_digits
    } else {
        q
    };
    NumberShape { negative, whole, point, fraction, exponent, exponent_digits, end }
}

impl NumberShape {
    pub open spec fn is_float(self) -> bool {
        self.point || self.exponent
    }

    /// A float needs a digit beside its point, and one behind its exponent sign.
    pub open spec fn is_valid_float(self) -> bool {
        &&& self.is_float()
        &&& self.whole + self.fraction >= 1
        &&& self.exponent ==> self.exponent_digits >= 1
    }
}

/// The number at the head of `s`, and what follows.
pub open spec fn number_from(s: Seq<u8>) -> Result<(JsonView, Seq<u8>), JsonError> {
    let n = number_shape(s);
    let rest = s.skip(n.end);
    if n.is_float() {
        if n.is_valid_float() {
            Ok((JsonView::Float(ascii(s.take(n.end))), rest))
        } else {
            Err(JsonError::InvalidNumber)
        }
    } else if n.negative {
        match unsigned_numeral(ascii(s.subrange(1, n.end)), i64::MAX as nat) {
            Some(m) => Ok((JsonView::Int((-(m as int)) as i64), rest)),
            None => Err(JsonError::InvalidNumber),
        }
    } else {
        match unsigned_numeral(ascii(s.take(n.end)), u64::MAX as nat) {
            Some(m) => Ok((JsonView::UInt(m as u64), rest)),
            None => Err(JsonError::InvalidNumber),
        }
    }
}

/// The value of a hexadecimal digit.
pub open spec fn hex_value(b: u8) -> Option<int> {
    if DIGIT_0 <= b <= DIGIT_9 {
        Some(b - DIGIT_0)
    } else if LOWER_A <= b <= LOWER_F {
        Some(b - LOWER_A + 10)
    } else if UPPER_A <= b <= UPPER_F {
        Some(b - UPPER_A + 10)
    } else {
        None
    }
}

/// The value of `count` hexadecimal digits at the head of `s`, behind the digits of `code`.
pub open spec fn hex_from(s: Seq<u8>, count: nat, code: int) -> Result<(int, Seq<u8>), JsonError>
    decreases count,
{
    if count == 0 {
        Ok((code, s))
    } else if s.len() == 0 {
        Err(JsonError::Eof)
    } else {
        match hex_value(s[0]) {
            None => Err(JsonError::InvalidEscape),
            Some(d) => hex_from(s.skip(1), (count - 1) as nat, code * 16 + d),
        }
    }
}

pub open spec fn is_high_surrogate(code: int) -> bool {
    0xD800 <= code <= 0xDBFF
}

pub open spec fn is_low_surrogate(code: int) -> bool {
    0xDC00 <= code <= 0xDFFF
}

/// The UTF-8 form of what `\u` and `s` name: a character, or one from two surrogate halves.
pub open spec fn unicode_from(s: Seq<u8>) -> Result<(Seq<u8>, Seq<u8>), JsonError> {
    match hex_from(s, 4, 0) {
        Err(e) => Err(e),
        Ok((code, rest)) => if is_high_surrogate(code) {
            if rest.len() < 2 || rest[0] != BACKSLASH || rest[1] != LOWER_U {
                Err(JsonError::InvalidEscape)
            } else {
                match hex_from(rest.skip(2), 4, 0) {
                    Err(e) => Err(e),
                    Ok((low, end)) => if is_low_surrogate(low) {
                        let scalar = 0x10000 + (code - 0xD800) * 0x400 + (low - 0xDC00);
                        Ok((encode_scalar(scalar as u32), end))
                    } else {
                        Err(JsonError::InvalidEscape)
                    },
                }
            }
        } else if is_low_surrogate(code) {
            Err(JsonError::InvalidEscape)
        } else {
            Ok((encode_scalar(code as u32), rest))
        },
    }
}

/// The bytes that the escape at the head of `s` stands for; its backslash is already taken.
pub open spec fn escape_from(s: Seq<u8>) -> Result<(Seq<u8>, Seq<u8>), JsonError> {
    if s.len() == 0 {
        Err(JsonError::Eof)
    } else if s[0] == QUOTE || s[0] == BACKSLASH || s[0] == SLASH {
        Ok((seq![s[0]], s.skip(1)))
    } else if s[0] == LOWER_N {
        Ok((seq![LINE_FEED], s.skip(1)))
    } else if s[0] == LOWER_T {
        Ok((seq![TAB], s.skip(1)))
    } else if s[0] == LOWER_R {
        Ok((seq![CARRIAGE_RETURN], s.skip(1)))
    } else if s[0] == LOWER_B {
        Ok((seq![0x08u8], s.skip(1)))
    } else if s[0] == LOWER_F {
        Ok((seq![0x0Cu8], s.skip(1)))
    } else if s[0] == LOWER_U {
        unicode_from(s.skip(1))
    } else {
        Err(JsonError::InvalidEscape)
    }
}

/// The bytes of the string whose opening quote stands before `s`, and what follows its end.
pub open spec fn string_bytes(s: Seq<u8>) -> Result<(Seq<u8>, Seq<u8>), JsonError>
    decreases s.len(),
{
    if s.len() == 0 {
        Err(JsonError::Eof)
    } else if s[0] == QUOTE {
        Ok((Seq::empty(), s.skip(1)))
    } else if s[0] == BACKSLASH {
        match escape_from(s.skip(1)) {
            Err(e) => Err(e),
            Ok((bytes, rest)) => if rest.len() < s.len() {
                match string_bytes(rest) {
                    Err(e) => Err(e),
                    Ok((more, end)) => Ok((bytes + more, end)),
                }
            } else {
                Err(JsonError::Eof)
            },
        }
    } else if s[0] < 0x20 {
        Err(JsonError::UnexpectedByte(s[0]))
    } else {
        match string_bytes(s.skip(1)) {
            Err(e) => Err(e),
            Ok((more, end)) => Ok((seq![s[0]] + more, end)),
        }
    }
}

/// The string whose opening quote stands before `s`, and what follows its end.
pub open spec fn string_from(s: Seq<u8>) -> Result<(Seq<char>, Seq<u8>), JsonError> {
    match string_bytes(s) {
        Err(e) => Err(e),
        Ok((bytes, rest)) => if valid_utf8(bytes) {
            Ok((decode_utf8(bytes), rest))
        } else {
            Err(JsonError::InvalidUtf8String)
        },
    }
}

/// The word `word` at the head of `s`, standing for `v`. A text that ends inside it has ended early.
pub open spec fn literal_from(s: Seq<u8>, word: Seq<u8>, v: JsonView) -> Result<
    (JsonView, Seq<u8>),
    JsonError,
> {
    if s.len() >= word.len() && s.take(word.len() as int) == word {
        Ok((v, s.skip(word.len() as int)))
    } else if s.len() < word.len() && s == word.take(s.len() as int) {
        Err(JsonError::Eof)
    } else {
        Err(unexpected(s))
    }
}

pub const TRUE_WORD: [u8; 4] = [0x74, 0x72, 0x75, 0x65];

pub const FALSE_WORD: [u8; 5] = [0x66, 0x61, 0x6C, 0x73, 0x65];

pub const NULL_WORD: [u8; 4] = [0x6E, 0x75, 0x6C, 0x6C];

/// The value at the head of `s`, white space before it skipped, and what follows.
pub open spec fn value_from(s: Seq<u8>) -> Result<(JsonView, Seq<u8>), JsonError>
    decreases s.len(), 0int,
{
    let t = after_ws(s);
    if t.len() == 0 {
        Err(JsonError::Eof)
    } else if t.len() > s.len() {
        arbitrary()
    } else if t[0] == OPEN_BRACE {
        let u = after_ws(t.skip(1));
        if heads(u, CLOSE_BRACE) {
            Ok((JsonView::Object(Seq::empty()), u.skip(1)))
        } else {
            match entries_from(t.skip(1)) {
                Err(e) => Err(e),
                Ok((entries, rest)) => Ok((JsonView::Object(entries), rest)),
            }
        }
    } else if t[0] == OPEN_BRACKET {
        let u = after_ws(t.skip(1));
        if heads(u, CLOSE_BRACKET) {
            Ok((JsonView::Array(Seq::empty()), u.skip(1)))
        } else {
            match items_from(t.skip(1)) {
                Err(e) => Err(e),
                Ok((items, rest)) => Ok((JsonView::Array(items), rest)),
            }
        }
    } else if t[0] == QUOTE {
        match string_from(t.skip(1)) {
            Err(e) => Err(e),
            Ok((text, rest)) => Ok((JsonView::Str(text), rest)),
        }
    } else if t[0] == LOWER_T {
        literal_from(t, TRUE_WORD@, JsonView::Bool(true))
    } else if t[0] == LOWER_F {
        literal_from(t, FALSE_WORD@, JsonView::Bool(false))
    } else if t[0] == LOWER_N {
        literal_from(t, NULL_WORD@, JsonView::Null)
    } else if t[0] == MINUS || is_digit_byte(t[0]) {
        number_from(t)
    } else {
        Err(JsonError::UnexpectedByte(t[0]))
    }
}

/// The values at the head of `s` up to and with the closing bracket, at least one.
pub open spec fn items_from(s: Seq<u8>) -> Result<(Seq<JsonView>, Seq<u8>), JsonError>
    decreases s.len(), 1int,
{
    match value_from(s) {
        Err(e) => Err(e),
        Ok((v, rest)) => {
            let t = after_ws(rest);
            if heads(t, CLOSE_BRACKET) {
                Ok((seq![v], t.skip(1)))
            } else if heads(t, COMMA) && t.len() <= s.len() {
                match items_from(t.skip(1)) {
                    Err(e) => Err(e),
                    Ok((more, end)) => Ok((seq![v] + more, end)),
                }
            } else {
                Err(unexpected(t))
            }
        },
    }
}

/// The keys and values at the head of `s` up to and with the closing brace, at least one.
pub open spec fn entries_from(s: Seq<u8>) -> Result<(Seq<(Seq<char>, JsonView)>, Seq<u8>), JsonError>
    decreases s.len(), 1int,
{
    let t = after_ws(s);
    if !heads(t, QUOTE) {
        Err(unexpected(t))
    } else {
        match string_from(t.skip(1)) {
            Err(e) => Err(e),
            Ok((key, after_key)) => {
                let u = after_ws(after_key);
                if !heads(u, COLON) || u.len() > s.len() {
                    Err(unexpected(u))
                } else {
                    match value_from(u.skip(1)) {
                        Err(e) => Err(e),
                        Ok((v, rest)) => {
                            let w = after_ws(rest);
                            if heads(w, CLOSE_BRACE) {
                                Ok((seq![(key, v)], w.skip(1)))
                            } else if heads(w, COMMA) && w.len() <= s.len() {
                                match entries_from(w.skip(1)) {
                                    Err(e) => Err(e),
                                    Ok((more, end)) => Ok((seq![(key, v)] + more, end)),
                                }
                            } else {
                                Err(unexpected(w))
                            }
                        },
                    }
                }
            },
        }
    }
}

/// What `input` holds as one value, with nothing but white space around it.
pub open spec fn parsed(input: Seq<u8>) -> Result<JsonView, JsonError> {
    match value_from(after_ws(input)) {
        Err(e) => Err(e),
        Ok((v, rest)) => if after_ws(rest).len() == 0 {
            Ok(v)
        } else {
            Err(unexpected(after_ws(rest)))
        },
    }
}

proof fn lemma_after_ws_len(s: Seq<u8>)
    ensures
        after_ws(s).len() <= s.len(),
    decreases s.len(),
{
    if s.len() > 0 && is_ws(s[0]) {
        lemma_after_ws_len(s.skip(1));
    }
}

pub proof fn lemma_digits_len_bound(s: Seq<u8>)
    ensures
        0 <= digits_len(s) <= s.len(),
        forall|i: int| 0 <= i < digits_len(s) ==> is_digit_byte(#[trigger] s[i]),
    decreases s.len(),
{
    if s.len() > 0 && is_digit_byte(s[0]) {
        lemma_digits_len_bound(s.skip(1));
        assert forall|i: int| 0 <= i < digits_len(s) implies is_digit_byte(#[trigger] s[i]) by {
            if i > 0 {
                assert(s.skip(1)[i - 1] == s[i]);
            }
        }
    }
}

/// A number that begins as one has its lexeme inside `s`, and it is not empty.
proof fn lemma_shape_bound(s: Seq<u8>)
    ensures
        0 <= number_shape(s).end <= s.len(),
        s.len() > 0 && (s[0] == MINUS || is_digit_byte(s[0])) ==> number_shape(s).end >= 1,
{
    let n = number_shape(s);
    let start: int = if n.negative {
        1
    } else {
        0
    };
    lemma_digits_len_bound(s.skip(start));
    let p = start + n.whole;
    if n.point {
        lemma_digits_len_bound(s.skip(p + 1));
    }
    let q = if n.point {
        p + 1 + n.fraction
    } else {
        p
    };
    if n.exponent {
        let x = if q + 1 < s.len() && (s[q + 1] == PLUS || s[q + 1] == MINUS) {
            q + 2
        } else {
            q + 1
        };
        lemma_digits_len_bound(s.skip(x));
    }
    if start == 0 && s.len() > 0 && is_digit_byte(s[0]) {
        assert(s.skip(0) =~= s);
        lemma_digits_len_bound(s.skip(1));
    }
}

/// Where the digits of a number stand.
proof fn lemma_shape_digits(s: Seq<u8>)
    requires
        !number_shape(s).negative,
    ensures
        ({
            let n = number_shape(s);
            let p = n.whole;
            &&& p <= s.len()
            &&& forall|i: int| 0 <= i < p ==> is_digit_byte(#[trigger] s[i])
            &&& n.point ==> p + 1 + n.fraction <= s.len() && forall|i: int|
                p + 1 <= i < p + 1 + n.fraction ==> is_digit_byte(#[trigger] s[i])
            &&& n.exponent ==> n.end - n.exponent_digits >= 1 && forall|i: int|
                n.end - n.exponent_digits <= i < n.end ==> is_digit_byte(#[trigger] s[i])
        }),
{
    let n = number_shape(s);
    let p = n.whole;
    lemma_digits_len_bound(s.skip(0));
    assert(s.skip(0) =~= s);
    if n.point {
        lemma_digits_len_bound(s.skip(p + 1));
        assert forall|i: int| p + 1 <= i < p + 1 + n.fraction implies is_digit_byte(#[trigger] s[i]) by {
            assert(s.skip(p + 1)[i - (p + 1)] == s[i]);
        }
    }
    if n.exponent {
        let x = n.end - n.exponent_digits;
        lemma_digits_len_bound(s.skip(x));
        assert forall|i: int| x <= i < n.end implies is_digit_byte(#[trigger] s[i]) by {
            assert(s.skip(x)[i - x] == s[i]);
        }
    }
}

proof fn lemma_hex_len(s: Seq<u8>, count: nat, code: int)
    ensures
        hex_from(s, count, code) matches Ok((_, rest)) ==> rest.len() + count == s.len(),
    decreases count,
{
    if count > 0 && s.len() > 0 {
        match hex_value(s[0]) {
            Some(d) => {
                lemma_hex_len(s.skip(1), (count - 1) as nat, code * 16 + d);
            },
            None => {},
        }
    }
}

proof fn lemma_escape_len(s: Seq<u8>)
    ensures
        escape_from(s) matches Ok((_, rest)) ==> rest.len() < s.len(),
{
    if s.len() > 0 && s[0] == LOWER_U {
        lemma_hex_len(s.skip(1), 4, 0);
        match hex_from(s.skip(1), 4, 0) {
            Ok((_, rest)) => {
                if rest.len() >= 2 {
                    lemma_hex_len(rest.skip(2), 4, 0);
                }
            },
            Err(_) => {},
        }
    }
}

proof fn lemma_string_len(s: Seq<u8>)
    ensures
        string_bytes(s) matches Ok((_, rest)) ==> rest.len() < s.len(),
    decreases s.len(),
{
    if s.len() > 0 && s[0] != QUOTE {
        if s[0] == BACKSLASH {
            lemma_escape_len(s.skip(1));
            match escape_from(s.skip(1)) {
                Ok((_, rest)) => {
                    lemma_string_len(rest);
                },
                Err(_) => {},
            }
        } else {
            lemma_string_len(s.skip(1));
        }
    }
}

/// Skipping white space twice is skipping it once.
proof fn lemma_after_ws_again(s: Seq<u8>)
    ensures
        after_ws(after_ws(s)) == after_ws(s),
    decreases s.len(),
{
    if s.len() > 0 && is_ws(s[0]) {
        lemma_after_ws_again(s.skip(1));
    }
}

/// What follows a value is shorter than what it was read from.
proof fn lemma_value_len(s: Seq<u8>)
    ensures
        value_from(s) matches Ok((_, rest)) ==> rest.len() < s.len(),
    decreases s.len(), 0int,
{
    lemma_after_ws_len(s);
    let t = after_ws(s);
    if t.len() > 0 {
        lemma_after_ws_len(t.skip(1));
        lemma_entries_len(t.skip(1));
        lemma_items_len(t.skip(1));
        lemma_string_len(t.skip(1));
        lemma_shape_bound(t);
    }
}

proof fn lemma_items_len(s: Seq<u8>)
    ensures
        items_from(s) matches Ok((_, rest)) ==> rest.len() < s.len(),
    decreases s.len(), 1int,
{
    lemma_value_len(s);
    match value_from(s) {
        Ok((_, rest)) => {
            lemma_after_ws_len(rest);
            let t = after_ws(rest);
            if t.len() > 0 {
                lemma_items_len(t.skip(1));
            }
        },
        Err(_) => {},
    }
}

proof fn lemma_entries_len(s: Seq<u8>)
    ensures
        entries_from(s) matches Ok((_, rest)) ==> rest.len() < s.len(),
    decreases s.len(), 1int,
{
    lemma_after_ws_len(s);
    let t = after_ws(s);
    if t.len() > 0 {
        lemma_string_len(t.skip(1));
        match string_bytes(t.skip(1)) {
            Ok((_, after_key)) => {
                lemma_after_ws_len(after_key);
                let u = after_ws(after_key);
                if u.len() > 0 {
                    lemma_value_len(u.skip(1));
                    match value_from(u.skip(1)) {
                        Ok((_, rest)) => {
                            lemma_after_ws_len(rest);
                            let w = after_ws(rest);
                            if w.len() > 0 {
                                lemma_entries_len(w.skip(1));
                            }
                        },
                        Err(_) => {},
                    }
                }
            },
            Err(_) => {},
        }
    }
}

proof fn lemma_items_skip_ws(s: Seq<u8>)
    ensures
        items_from(after_ws(s)) == items_from(s),
{
    lemma_after_ws_len(s);
    lemma_after_ws_again(s);
    assert(value_from(after_ws(s)) == value_from(s));
    lemma_value_len(after_ws(s));
    match value_from(s) {
        Ok((_, rest)) => {
            lemma_after_ws_len(rest);
        },
        Err(_) => {},
    }
}

proof fn lemma_entries_skip_ws(s: Seq<u8>)
    ensures
        entries_from(after_ws(s)) == entries_from(s),
{
    lemma_after_ws_len(s);
    lemma_after_ws_again(s);
    let t = after_ws(s);
    if t.len() > 0 {
        lemma_string_len(t.skip(1));
        match string_bytes(t.skip(1)) {
            Ok((_, after_key)) => {
                lemma_after_ws_len(after_key);
                let u = after_ws(after_key);
                if u.len() > 0 {
                    lemma_value_len(u.skip(1));
                    match value_from(u.skip(1)) {
                        Ok((_, rest)) => {
                            lemma_after_ws_len(rest);
                        },
                        Err(_) => {},
                    }
                }
            },
            Err(_) => {},
        }
    }
}

/// The values of ASCII digits.
pub open spec fn digit_values(s: Seq<u8>) -> Seq<u8> {
    Seq::new(s.len(), |i: int| (s[i] - DIGIT_0) as u8)
}

/// The digits of a float lexeme, those before the point and those behind it.
pub open spec fn mantissa_digits(s: Seq<u8>) -> Seq<u8> {
    let n = number_shape(s);
    let start: int = if n.negative {
        1
    } else {
        0
    };
    let p = start + n.whole;
    digit_values(s.subrange(start, p)) + if n.point {
        digit_values(s.subrange(p + 1, p + 1 + n.fraction))
    } else {
        Seq::empty()
    }
}

/// The power of ten that a float lexeme names behind its `e`.
pub open spec fn exponent_value(s: Seq<u8>) -> int {
    let n = number_shape(s);
    let magnitude = digit_number(digit_values(s.subrange(n.end - n.exponent_digits, n.end))) as int;
    if !n.exponent {
        0
    } else if s[n.end - n.exponent_digits - 1] == MINUS {
        -magnitude
    } else {
        magnitude
    }
}

/// The integer that a float lexeme gives: its binary64 value truncated, 0 if it is negative, and
/// at most `u64::MAX`.
pub open spec fn float_to_u64(s: Seq<u8>) -> u64 {
    let n = number_shape(s);
    if n.negative {
        0
    } else {
        scaled_to_u64(mantissa_digits(s), exponent_value(s) - n.fraction)
    }
}

/// Cursor over a text.
pub struct Parser<'a> {
    bytes: &'a [u8],
    pos: usize,
}

/// Counts the digits from `from` on.
fn count_digits(bytes: &[u8], from: usize) -> (r: usize)
    requires
        from <= bytes@.len(),
    ensures
        r == digits_len(bytes@.skip(from as int)),
        from + r <= bytes@.len(),
{
    let mut i: usize = from;
    while i < bytes.len() && DIGIT_0 <= bytes[i] && bytes[i] <= DIGIT_9
        invariant
            from <= i <= bytes@.len(),
            digits_len(bytes@.skip(from as int)) == (i - from) + digits_len(bytes@.skip(i as int)),
        decreases bytes@.len() - i,
    {
        assert(bytes@.skip(i as int).skip(1) =~= bytes@.skip(i + 1));
        i += 1;
    }
    i - from
}

/// What `number_shape` says of a number, as far as the parser needs it.
struct NumberLexeme {
    negative: bool,
    whole: usize,
    point: bool,
    fraction: usize,
    exponent: bool,
    exponent_digits: usize,
    len: usize,
}

/// Finds the end of the number that `s` begins with.
fn measure_number(s: &[u8]) -> (r: NumberLexeme)
    ensures
        ({
            let n = number_shape(s@);
            &&& r.negative == n.negative
            &&& r.whole == n.whole
            &&& r.point == n.point
            &&& r.fraction == n.fraction
            &&& r.exponent == n.exponent
            &&& r.exponent_digits == n.exponent_digits
            &&& r.len == n.end
            &&& r.len <= s@.len()
            &&& r.whole + r.fraction <= s@.len()
            &&& !n.is_float() && n.negative ==> r.len >= 1
        }),
{
    let total: usize = s.len();
    let negative = total > 0 && s[0] == MINUS;
    let start: usize = if negative {
        1
    } else {
        0
    };
    let whole: usize = count_digits(s, start);
    let p: usize = start + whole;
    let point = p < total && s[p] == POINT;
    let fraction: usize = if point {
        count_digits(s, p + 1)
    } else {
        0
    };
    let q: usize = if point {
        p + 1 + fraction
    } else {
        p
    };
    let exponent = q < total && (s[q] == LOWER_E || s[q] == UPPER_E);
    if !exponent {
        return NumberLexeme {
            negative,
            whole,
            point,
            fraction,
            exponent,
            exponent_digits: 0,
            len: q,
        };
    }
    let x: usize = if q + 1 < total && (s[q + 1] == PLUS || s[q + 1] == MINUS) {
        q + 2
    } else {
        q + 1
    };
    let exponent_digits: usize = count_digits(s, x);
    NumberLexeme { negative, whole, point, fraction, exponent, exponent_digits, len: x + exponent_digits }
}

/// Appends the values of the digits from `from` to `to`.
fn push_digit_values(out: &mut Vec<u8>, s: &[u8], from: usize, to: usize)
    requires
        from <= to <= s@.len(),
        forall|i: int| from <= i < to ==> is_digit_byte(#[trigger] s@[i]),
        are_digits(old(out)@),
    ensures
        final(out)@ == old(out)@ + digit_values(s@.subrange(from as int, to as int)),
        are_digits(final(out)@),
{
    let mut i: usize = from;
    let ghost before = out@;
    assert(digit_values(s@.subrange(from as int, from as int)) =~= Seq::empty());
    assert(before + Seq::<u8>::empty() =~= before);
    while i < to
        invariant
            from <= i <= to <= s@.len(),
            forall|i: int| from <= i < to ==> is_digit_byte(#[trigger] s@[i]),
            out@ == before + digit_values(s@.subrange(from as int, i as int)),
            are_digits(out@),
        decreases to - i,
    {
        out.push(s[i] - DIGIT_0);
        assert(out@ =~= before + digit_values(s@.subrange(from as int, i + 1)));
        i += 1;
    }
}

/// Exponents beyond this make no difference: the number is zero or out of range.
pub const EXPONENT_CAP: u128 = 0x800_0000_0000_0000_0000_0000;

/// The number that the digits from `from` to `to` write, or the cap where it is greater.
fn capped_number(s: &[u8], from: usize, to: usize) -> (r: u128)
    requires
        from <= to <= s@.len(),
        forall|i: int| from <= i < to ==> is_digit_byte(#[trigger] s@[i]),
    ensures
        r <= EXPONENT_CAP,
        r < EXPONENT_CAP ==> r == digit_number(digit_values(s@.subrange(from as int, to as int))),
        r == EXPONENT_CAP ==> digit_number(digit_values(s@.subrange(from as int, to as int)))
            >= EXPONENT_CAP,
{
    let mut r: u128 = 0;
    let mut i: usize = from;
    assert(digit_values(s@.subrange(from as int, from as int)) =~= Seq::empty());
    while i < to
        invariant
            from <= i <= to <= s@.len(),
            forall|i: int| from <= i < to ==> is_digit_byte(#[trigger] s@[i]),
            r <= EXPONENT_CAP,
            r < EXPONENT_CAP ==> r == digit_number(digit_values(s@.subrange(from as int, i as int))),
            r == EXPONENT_CAP ==> digit_number(digit_values(s@.subrange(from as int, i as int)))
                >= EXPONENT_CAP,
        decreases to - i,
    {
        proof {
            let d = digit_values(s@.subrange(from as int, i + 1));
            assert(d.drop_last() =~= digit_values(s@.subrange(from as int, i as int)));
            assert(d.last() == s@[i as int] - DIGIT_0);
        }
        let next: u128 = r * 10 + (s[i] - DIGIT_0) as u128;
        r = if next > EXPONENT_CAP {
            EXPONENT_CAP
        } else {
            next
        };
        i += 1;
    }
    r
}

/// The integer that a float lexeme gives.
fn float_lexeme_to_u64(s: &[u8]) -> (r: u64)
    ensures
        r == float_to_u64(s@),
{
    let n = measure_number(s);
    if n.negative {
        return 0;
    }
    proof {
        lemma_shape_bound(s@);
        lemma_shape_digits(s@);
    }
    let mut digits: Vec<u8> = Vec::new();
    let p: usize = n.whole;
    push_digit_values(&mut digits, s, 0, p);
    let ghost head = digit_values(s@.subrange(0, p as int));
    assert(Seq::<u8>::empty() + head =~= head);
    if n.point {
        push_digit_values(&mut digits, s, p + 1, p + 1 + n.fraction);
    } else {
        assert(head + Seq::<u8>::empty() =~= head);
    }
    assert(digits@ == mantissa_digits(s@));
    let mut exponent: i128 = 0;
    if n.exponent {
        let x: usize = n.len - n.exponent_digits;
        let magnitude: u128 = capped_number(s, x, n.len);
        exponent = if s[x - 1] == MINUS {
            -(magnitude as i128)
        } else {
            magnitude as i128
        };
        proof {
            let exact = exponent_value(s@) - n.fraction;
            let capped = exponent - n.fraction;
            if magnitude == EXPONENT_CAP {
                if exponent > 0 {
                    lemma_huge(digits@, exact);
                    lemma_huge(digits@, capped);
                } else {
                    lemma_tiny(digits@, exact);
                    lemma_tiny(digits@, capped);
                }
            }
        }
    }
    scaled_digits_to_u64(&digits, exponent - n.fraction as i128)
}

/// The bytes from `from` to `to` as characters.
fn ascii_chars(bytes: &[u8], from: usize, to: usize) -> (r: Vec<char>)
    requires
        from <= to <= bytes@.len(),
    ensures
        r@ == ascii(bytes@.subrange(from as int, to as int)),
{
    let mut out: Vec<char> = Vec::new();
    let mut i: usize = from;
    while i < to
        invariant
            from <= i <= to <= bytes@.len(),
            out@ == ascii(bytes@.subrange(from as int, i as int)),
        decreases to - i,
    {
        out.push(bytes[i] as char);
        assert(ascii(bytes@.subrange(from as int, i + 1)) =~= ascii(
            bytes@.subrange(from as int, i as int),
        ).push(bytes@[i as int] as char));
        i += 1;
    }
    out
}

/// The value of a hexadecimal digit.
fn hex_digit(b: u8) -> (r: Option<u32>)
    ensures
        r is Some <==> hex_value(b) is Some,
        r matches Some(d) ==> d == hex_value(b)->0 && d < 16,
{
    if DIGIT_0 <= b && b <= DIGIT_9 {
        Some((b - DIGIT_0) as u32)
    } else if LOWER_A <= b && b <= LOWER_F {
        Some((b - LOWER_A) as u32 + 10)
    } else if UPPER_A <= b && b <= UPPER_F {
        Some((b - UPPER_A) as u32 + 10)
    } else {
        None
    }
}

/// Appends the UTF-8 form of a scalar value.
fn push_codepoint(out: &mut Vec<u8>, code: u32)
    requires
        is_scalar(code),
    ensures
        final(out)@ == old(out)@ + encode_scalar(code),
{
    if code <= 0x7F {
        out.push((code & 0x7F) as u8);
    } else if code <= 0x7FF {
        out.push(0xC0 | ((code >> 6) & 0x1F) as u8);
        out.push(0x80 | (code & 0x3F) as u8);
    } else if code <= 0xFFFF {
        out.push(0xE0 | ((code >> 12) & 0x0F) as u8);
        out.push(0x80 | ((code >> 6) & 0x3F) as u8);
        out.push(0x80 | (code & 0x3F) as u8);
    } else {
        out.push(0xF0 | ((code >> 18) & 0x7) as u8);
        out.push(0x80 | ((code >> 12) & 0x3F) as u8);
        out.push(0x80 | ((code >> 6) & 0x3F) as u8);
        out.push(0x80 | (code & 0x3F) as u8);
    }
    assert(out@ =~= old(out)@ + encode_scalar(code));
}

impl<'a> Parser<'a> {
    /// The cursor lies within the text.
    pub closed spec fn wf(self) -> bool {
        self.pos <= self.bytes@.len()
    }

    /// What is left to read.
    pub closed spec fn rest(self) -> Seq<u8> {
        self.bytes@.skip(self.pos as int)
    }

    pub fn new(bytes: &'a [u8]) -> (r: Parser<'a>)
        ensures
            r.wf(),
            r.rest() == bytes@,
    {
        let r = Parser { bytes, pos: 0 };
        assert(r.rest() =~= bytes@);
        r
    }

    fn peek(&self) -> (r: Option<u8>)
        requires
            self.wf(),
        ensures
            r is Some <==> self.rest().len() > 0,
            r matches Some(b) ==> b == self.rest()[0],
    {
        if self.pos < self.bytes.len() {
            Some(self.bytes[self.pos])
        } else {
            None
        }
    }

    /// Whether the next byte is `b`.
    fn at(&self, b: u8) -> (r: bool)
        requires
            self.wf(),
        ensures
            r == heads(self.rest(), b),
    {
        self.pos < self.bytes.len() && self.bytes[self.pos] == b
    }

    /// Steps over `n` bytes.
    fn advance(&mut self, n: usize)
        requires
            old(self).wf(),
            n <= old(self).rest().len(),
        ensures
            final(self).wf(),
            final(self).rest() == old(self).rest().skip(n as int),
    {
        let total: usize = self.bytes.len();
        self.pos = self.pos + n;
        assert(self.rest() =~= old(self).rest().skip(n as int));
    }

    fn bump(&mut self) -> (r: Option<u8>)
        requires
            old(self).wf(),
        ensures
            final(self).wf(),
            r is Some <==> old(self).rest().len() > 0,
            r matches Some(b) ==> b == old(self).rest()[0] && final(self).rest() == old(self).rest().skip(1),
            r is None ==> final(self).rest() == old(self).rest(),
    {
        let b = self.peek();
        if b.is_some() {
            self.advance(1);
        }
        b
    }

    fn skip_ws(&mut self)
        requires
            old(self).wf(),
        ensures
            final(self).wf(),
            final(self).rest() == after_ws(old(self).rest()),
    {
        while self.pos < self.bytes.len() && (self.bytes[self.pos] == SPACE || self.bytes[self.pos]
            == LINE_FEED || self.bytes[self.pos] == CARRIAGE_RETURN || self.bytes[self.pos] == TAB)
            invariant
                self.wf(),
                self.bytes == old(self).bytes,
                after_ws(old(self).rest()) == after_ws(self.rest()),
            decreases self.bytes@.len() - self.pos,
        {
            let ghost before = self.rest();
            self.pos = self.pos + 1;
            assert(before.skip(1) =~= self.rest());
        }
    }

    /// The error for what stands at the cursor.
    fn unexpected_here(&self) -> (r: JsonError)
        requires
            self.wf(),
        ensures
            r == unexpected(self.rest()),
    {
        match self.peek() {
            Some(b) => JsonError::UnexpectedByte(b),
            None => JsonError::Eof,
        }
    }

    /// Takes the word `word`.
    fn literal(&mut self, word: &[u8]) -> (r: Result<(), JsonError>)
        requires
            old(self).wf(),
        ensures
            final(self).wf(),
            forall|v: JsonView|
                match #[trigger] literal_from(old(self).rest(), word@, v) {
                    Err(e) => r == Err::<(), JsonError>(e),
                    Ok((_, rest)) => r is Ok && final(self).rest() == rest,
                },
    {
        let left: usize = self.bytes.len() - self.pos;
        if word.len() <= left && bytes_eq(
            slice_subrange(self.bytes, self.pos, self.pos + word.len()),
            word,
        ) {
            assert(self.rest().take(word@.len() as int) =~= self.bytes@.subrange(
                self.pos as int,
                self.pos + word@.len(),
            ));
            self.advance(word.len());
            return Ok(());
        }
        assert(word@.len() <= left ==> self.rest().take(word@.len() as int) =~= self.bytes@.subrange(
            self.pos as int,
            self.pos + word@.len(),
        ));
        if left < word.len() {
            assert(self.rest() =~= self.bytes@.subrange(self.pos as int, self.bytes@.len() as int));
            assert(word@.take(left as int) =~= word@.subrange(0, left as int));
            if bytes_eq(
                slice_subrange(self.bytes, self.pos, self.bytes.len()),
                slice_subrange(word, 0, left),
            ) {
                return Err(JsonError::Eof);
            }
        }
        Err(self.unexpected_here())
    }

    /// Takes a number.
    fn number(&mut self) -> (r: Result<Json, JsonError>)
        requires
            old(self).wf(),
        ensures
            final(self).wf(),
            match number_from(old(self).rest()) {
                Err(e) => r == Err::<Json, JsonError>(e),
                Ok((v, rest)) => r matches Ok(j) && j@ == v && final(self).rest() == rest,
            },
    {
        let ghost s = self.rest();
        let ghost shape = number_shape(s);
        let from: usize = self.pos;
        let total: usize = self.bytes.len();
        let n = measure_number(slice_subrange(self.bytes, from, total));
        assert(self.bytes@.subrange(from as int, total as int) =~= s);
        let end: usize = from + n.len;
        self.pos = end;
        assert(self.rest() =~= s.skip(shape.end));
        assert(self.bytes@.subrange(from as int, end as int) =~= s.take(shape.end));
        if n.point || n.exponent {
            if (n.whole > 0 || n.fraction > 0) && (!n.exponent || n.exponent_digits > 0) {
                let chars = ascii_chars(self.bytes, from, end);
                Ok(Json::Num(JsonNumber::Float(string_of(chars.as_slice(), 0, chars.len()))))
            } else {
                Err(JsonError::InvalidNumber)
            }
        } else if n.negative {
            let digits = ascii_chars(self.bytes, from + 1, end);
            assert(self.bytes@.subrange(from + 1, end as int) =~= s.subrange(1, shape.end));
            match parse_unsigned(digits.as_slice(), i64::MAX as u64) {
                Some(m) => Ok(Json::Num(JsonNumber::Int(-(m as i64)))),
                None => Err(JsonError::InvalidNumber),
            }
        } else {
            let digits = ascii_chars(self.bytes, from, end);
            match parse_unsigned(digits.as_slice(), u64::MAX) {
                Some(m) => Ok(Json::Num(JsonNumber::UInt(m))),
                None => Err(JsonError::InvalidNumber),
            }
        }
    }

    /// Takes four hexadecimal digits.
    fn read_hex4(&mut self) -> (r: Result<u32, JsonError>)
        requires
            old(self).wf(),
        ensures
            final(self).wf(),
            match hex_from(old(self).rest(), 4, 0) {
                Err(e) => r == Err::<u32, JsonError>(e),
                Ok((code, rest)) => r matches Ok(c) && c == code && c < 0x10000 && final(self).rest()
                    == rest,
            },
    {
        let mut code: u32 = 0;
        let mut left: u32 = 4;
        while left > 0
            invariant
                self.wf(),
                left <= 4,
                left == 4 ==> code == 0,
                left == 3 ==> code < 0x10,
                left == 2 ==> code < 0x100,
                left == 1 ==> code < 0x1000,
                left == 0 ==> code < 0x10000,
                hex_from(old(self).rest(), 4, 0) == hex_from(self.rest(), left as nat, code as int),
            decreases left,
        {
            let b: u8 = match self.bump() {
                None => return Err(JsonError::Eof),
                Some(b) => b,
            };
            match hex_digit(b) {
                None => return Err(JsonError::InvalidEscape),
                Some(d) => {
                    code = code * 16 + d;
                },
            }
            left -= 1;
        }
        Ok(code)
    }

    /// Takes what stands behind `\u` and appends its UTF-8 form.
    fn unicode_escape(&mut self, out: &mut Vec<u8>) -> (r: Result<(), JsonError>)
        requires
            old(self).wf(),
        ensures
            final(self).wf(),
            match unicode_from(old(self).rest()) {
                Err(e) => r == Err::<(), JsonError>(e),
                Ok((bytes, rest)) => r is Ok && final(out)@ == old(out)@ + bytes && final(self).rest()
                    == rest,
            },
    {
        let code: u32 = match self.read_hex4() {
            Err(e) => return Err(e),
            Ok(c) => c,
        };
        if 0xD800 <= code && code <= 0xDBFF {
            let ghost t = self.rest();
            let first = self.bump();
            if first != Some(BACKSLASH) {
                return Err(JsonError::InvalidEscape);
            }
            let second = self.bump();
            if second != Some(LOWER_U) {
                return Err(JsonError::InvalidEscape);
            }
            assert(t.skip(1).skip(1) =~= t.skip(2));
            let low: u32 = match self.read_hex4() {
                Err(e) => return Err(e),
                Ok(c) => c,
            };
            if !(0xDC00 <= low && low <= 0xDFFF) {
                return Err(JsonError::InvalidEscape);
            }
            push_codepoint(out, 0x10000 + (code - 0xD800) * 0x400 + (low - 0xDC00));
            Ok(())
        } else if 0xDC00 <= code && code <= 0xDFFF {
            Err(JsonError::InvalidEscape)
        } else {
            push_codepoint(out, code);
            Ok(())
        }
    }

    /// Takes an escape, its backslash already taken, and appends what it stands for.
    fn escape(&mut self, out: &mut Vec<u8>) -> (r: Result<(), JsonError>)
        requires
            old(self).wf(),
        ensures
            final(self).wf(),
            match escape_from(old(self).rest()) {
                Err(e) => r == Err::<(), JsonError>(e),
                Ok((bytes, rest)) => r is Ok && final(out)@ == old(out)@ + bytes && final(self).rest()
                    == rest,
            },
    {
        let b: u8 = match self.bump() {
            None => return Err(JsonError::Eof),
            Some(b) => b,
        };
        if b == QUOTE || b == BACKSLASH || b == SLASH {
            out.push(b);
        } else if b == LOWER_N {
            out.push(LINE_FEED);
        } else if b == LOWER_T {
            out.push(TAB);
        } else if b == LOWER_R {
            out.push(CARRIAGE_RETURN);
        } else if b == LOWER_B {
            out.push(0x08);
        } else if b == LOWER_F {
            out.push(0x0C);
        } else if b == LOWER_U {
            return self.unicode_escape(out);
        } else {
            return Err(JsonError::InvalidEscape);
        }
        Ok(())
    }

    /// Takes a string, its opening quote already taken.
    fn string(&mut self) -> (r: Result<String, JsonError>)
        requires
            old(self).wf(),
        ensures
            final(self).wf(),
            match string_from(old(self).rest()) {
                Err(e) => r == Err::<String, JsonError>(e),
                Ok((text, rest)) => r matches Ok(t) && t@ == text && final(self).rest() == rest,
            },
    {
        let mut out: Vec<u8> = Vec::new();
        let ghost whole = string_bytes(self.rest());
        proof {
            if let Ok((more, end)) = whole {
                assert(Seq::<u8>::empty() + more =~= more);
            }
        }
        loop
            invariant
                self.wf(),
                whole == string_bytes(old(self).rest()),
                whole == match string_bytes(self.rest()) {
                    Err(e) => Err(e),
                    Ok((more, end)) => Ok((out@ + more, end)),
                },
            decreases self.rest().len(),
        {
            let ghost s = self.rest();
            let ghost before = out@;
            let b: u8 = match self.bump() {
                None => return Err(JsonError::Eof),
                Some(b) => b,
            };
            if b == QUOTE {
                assert(before + Seq::<u8>::empty() =~= before);
                return match utf8_text(out.as_slice()) {
                    Some(t) => Ok(t.to_owned()),
                    None => Err(JsonError::InvalidUtf8String),
                };
            }
            if b == BACKSLASH {
                proof {
                    lemma_escape_len(s.skip(1));
                }
                match self.escape(&mut out) {
                    Err(e) => return Err(e),
                    Ok(()) => {},
                }
                proof {
                    let bytes = escape_from(s.skip(1))->Ok_0.0;
                    if let Ok((more, end)) = string_bytes(self.rest()) {
                        assert(before + (bytes + more) =~= (before + bytes) + more);
                    }
                }
            } else if b < 0x20 {
                return Err(JsonError::UnexpectedByte(b));
            } else {
                out.push(b);
                proof {
                    if let Ok((more, end)) = string_bytes(self.rest()) {
                        assert(before + (seq![b] + more) =~= before.push(b) + more);
                    }
                }
            }
        }
    }

    /// Takes a value, with the white space before it.
    pub fn value(&mut self) -> (r: Result<Json, JsonError>)
        requires
            old(self).wf(),
        ensures
            final(self).wf(),
            match value_from(old(self).rest()) {
                Err(e) => r == Err::<Json, JsonError>(e),
                Ok((v, rest)) => r matches Ok(j) && j@ == v && final(self).rest() == rest,
            },
        decreases old(self).rest().len(), 0int,
    {
        proof {
            lemma_after_ws_len(self.rest());
        }
        self.skip_ws();
        let b: u8 = match self.peek() {
            None => return Err(JsonError::Eof),
            Some(b) => b,
        };
        if b == OPEN_BRACE {
            self.advance(1);
            self.object()
        } else if b == OPEN_BRACKET {
            self.advance(1);
            self.array()
        } else if b == QUOTE {
            self.advance(1);
            match self.string() {
                Err(e) => Err(e),
                Ok(t) => Ok(Json::Str(t)),
            }
        } else if b == LOWER_T {
            let ghost r = literal_from(self.rest(), TRUE_WORD@, JsonView::Bool(true));
            match self.literal(TRUE_WORD.as_slice()) {
                Err(e) => Err(e),
                Ok(()) => Ok(Json::Bool(true)),
            }
        } else if b == LOWER_F {
            let ghost r = literal_from(self.rest(), FALSE_WORD@, JsonView::Bool(false));
            match self.literal(FALSE_WORD.as_slice()) {
                Err(e) => Err(e),
                Ok(()) => Ok(Json::Bool(false)),
            }
        } else if b == LOWER_N {
            let ghost r = literal_from(self.rest(), NULL_WORD@, JsonView::Null);
            match self.literal(NULL_WORD.as_slice()) {
                Err(e) => Err(e),
                Ok(()) => Ok(Json::Null),
            }
        } else if b == MINUS || (DIGIT_0 <= b && b <= DIGIT_9) {
            self.number()
        } else {
            Err(JsonError::UnexpectedByte(b))
        }
    }

    /// Takes an object, its opening brace already taken.
    fn object(&mut self) -> (r: Result<Json, JsonError>)
        requires
            old(self).wf(),
        ensures
            final(self).wf(),
            heads(after_ws(old(self).rest()), CLOSE_BRACE) ==> (r matches Ok(j) && j@
                == JsonView::Object(Seq::empty()) && final(self).rest() == after_ws(old(self).rest()).skip(1)),
            !heads(after_ws(old(self).rest()), CLOSE_BRACE) ==> match entries_from(old(self).rest()) {
                Err(e) => r == Err::<Json, JsonError>(e),
                Ok((entries, rest)) => r matches Ok(j) && j@ == JsonView::Object(entries) && final(self).rest()
                    == rest,
            },
        decreases old(self).rest().len(), 1int,
    {
        let mut entries: Vec<(String, Json)> = Vec::new();
        let ghost whole = entries_from(self.rest());
        proof {
            lemma_object_view(entries);
            assert(entry_views(entries@) =~= Seq::empty());
            if let Ok((more, end)) = whole {
                assert(Seq::<(Seq<char>, JsonView)>::empty() + more =~= more);
            }
            lemma_after_ws_len(self.rest());
            lemma_after_ws_again(self.rest());
        }
        self.skip_ws();
        if self.at(CLOSE_BRACE) {
            self.advance(1);
            return Ok(Json::Object(entries));
        }
        proof {
            lemma_entries_skip_ws(old(self).rest());
        }
        loop
            invariant
                self.wf(),
                self.rest().len() <= old(self).rest().len(),
                whole == entries_from(old(self).rest()),
                !heads(after_ws(old(self).rest()), CLOSE_BRACE),
                whole == match entries_from(self.rest()) {
                    Err(e) => Err(e),
                    Ok((more, end)) => Ok((entry_views(entries@) + more, end)),
                },
            decreases self.rest().len(),
        {
            let ghost s = self.rest();
            proof {
                lemma_after_ws_len(s);
            }
            self.skip_ws();
            if !self.at(QUOTE) {
                return Err(self.unexpected_here());
            }
            self.advance(1);
            proof {
                lemma_string_len(self.rest());
            }
            let key: String = match self.string() {
                Err(e) => return Err(e),
                Ok(k) => k,
            };
            proof {
                lemma_after_ws_len(self.rest());
            }
            self.skip_ws();
            if !self.at(COLON) {
                return Err(self.unexpected_here());
            }
            self.advance(1);
            proof {
                lemma_value_len(self.rest());
            }
            let value: Json = match self.value() {
                Err(e) => return Err(e),
                Ok(v) => v,
            };
            let ghost before = entry_views(entries@);
            let ghost entry = (key@, value@);
            entries.push((key, value));
            proof {
                assert(entry_views(entries@) =~= before.push(entry));
                assert(before + seq![entry] =~= before.push(entry));
                lemma_after_ws_len(self.rest());
            }
            self.skip_ws();
            if self.at(CLOSE_BRACE) {
                self.advance(1);
                proof {
                    lemma_object_view(entries);
                }
                return Ok(Json::Object(entries));
            }
            if !self.at(COMMA) {
                return Err(self.unexpected_here());
            }
            self.advance(1);
            proof {
                if let Ok((more, end)) = entries_from(self.rest()) {
                    assert(before + (seq![entry] + more) =~= before.push(entry) + more);
                }
            }
        }
    }

    /// Takes an array, its opening bracket already taken.
    fn array(&mut self) -> (r: Result<Json, JsonError>)
        requires
            old(self).wf(),
        ensures
            final(self).wf(),
            heads(after_ws(old(self).rest()), CLOSE_BRACKET) ==> (r matches Ok(j) && j@
                == JsonView::Array(Seq::empty()) && final(self).rest() == after_ws(old(self).rest()).skip(1)),
            !heads(after_ws(old(self).rest()), CLOSE_BRACKET) ==> match items_from(old(self).rest()) {
                Err(e) => r == Err::<Json, JsonError>(e),
                Ok((items, rest)) => r matches Ok(j) && j@ == JsonView::Array(items) && final(self).rest()
                    == rest,
            },
        decreases old(self).rest().len(), 1int,
    {
        let mut items: Vec<Json> = Vec::new();
        let ghost whole = items_from(self.rest());
        proof {
            lemma_array_view(items);
            assert(item_views(items@) =~= Seq::empty());
            if let Ok((more, end)) = whole {
                assert(Seq::<JsonView>::empty() + more =~= more);
            }
            lemma_after_ws_len(self.rest());
            lemma_after_ws_again(self.rest());
        }
        self.skip_ws();
        if self.at(CLOSE_BRACKET) {
            self.advance(1);
            return Ok(Json::Array(items));
        }
        proof {
            lemma_items_skip_ws(old(self).rest());
        }
        loop
            invariant
                self.wf(),
                self.rest().len() <= old(self).rest().len(),
                whole == items_from(old(self).rest()),
                !heads(after_ws(old(self).rest()), CLOSE_BRACKET),
                whole == match items_from(self.rest()) {
                    Err(e) => Err(e),
                    Ok((more, end)) => Ok((item_views(items@) + more, end)),
                },
            decreases self.rest().len(),
        {
            proof {
                lemma_value_len(self.rest());
            }
            let value: Json = match self.value() {
                Err(e) => return Err(e),
                Ok(v) => v,
            };
            let ghost before = item_views(items@);
            let ghost item = value@;
            items.push(value);
            proof {
                assert(item_views(items@) =~= before.push(item));
                assert(before + seq![item] =~= before.push(item));
                lemma_after_ws_len(self.rest());
            }
            self.skip_ws();
            if self.at(CLOSE_BRACKET) {
                self.advance(1);
                proof {
                    lemma_array_view(items);
                }
                return Ok(Json::Array(items));
            }
            if !self.at(COMMA) {
                return Err(self.unexpected_here());
            }
            self.advance(1);
            proof {
                if let Ok((more, end)) = items_from(self.rest()) {
                    assert(before + (seq![item] + more) =~= before.push(item) + more);
                }
            }
        }
    }
}

/// Parses `input` as one value with nothing but white space around it.
pub fn parse(input: &[u8]) -> (r: Result<Json, JsonError>)
    ensures
        match parsed(input@) {
            Err(e) => r == Err::<Json, JsonError>(e),
            Ok(v) => r matches Ok(j) && j@ == v,
        },
{
    let mut parser = Parser::new(input);
    parser.skip_ws();
    let value: Json = match parser.value() {
        Err(e) => return Err(e),
        Ok(v) => v,
    };
    parser.skip_ws();
    match parser.peek() {
        None => Ok(value),
        Some(b) => Err(JsonError::UnexpectedByte(b)),
    }
}

/// How a character is written inside a string.
pub open spec fn escaped(c: char) -> Seq<char> {
    if c == '"' {
        seq!['\\', '"']
    } else if c == '\\' {
        seq!['\\', '\\']
    } else if c == '\n' {
        seq!['\\', 'n']
    } else if c == '\r' {
        seq!['\\', 'r']
    } else if c == '\t' {
        seq!['\\', 't']
    } else if c == '\x08' {
        seq!['\\', 'b']
    } else if c == '\x0C' {
        seq!['\\', 'f']
    } else if (c as u32) < 0x20 {
        seq!['\\', 'u', '0', '0'] + hex2_lower(c as u8)
    } else {
        seq![c]
    }
}

pub open spec fn escaped_all(t: Seq<char>) -> Seq<char>
    decreases t.len(),
{
    if t.len() == 0 {
        Seq::empty()
    } else {
        escaped_all(t.drop_last()) + escaped(t.last())
    }
}

/// A string in quotes.
pub open spec fn quoted(t: Seq<char>) -> Seq<char> {
    seq!['"'] + escaped_all(t) + seq!['"']
}

/// A signed numeral.
pub open spec fn signed_decimal(n: int) -> Seq<char> {
    if n < 0 {
        seq!['-'] + decimal((-n) as nat)
    } else {
        decimal(n as nat)
    }
}

/// A comma before every element but the first.
pub open spec fn separator(i: int) -> Seq<char> {
    if i > 0 {
        seq![',']
    } else {
        Seq::empty()
    }
}

/// The text of a value, without white space.
pub open spec fn emitted(v: JsonView) -> Seq<char>
    decreases v, 0int,
{
    match v {
        JsonView::Null => "null"@,
        JsonView::Bool(b) => if b {
            "true"@
        } else {
            "false"@
        },
        JsonView::UInt(n) => decimal(n as nat),
        JsonView::Int(n) => signed_decimal(n as int),
        JsonView::Float(t) => t,
        JsonView::Str(t) => quoted(t),
        JsonView::Array(items) => seq!['['] + emitted_items(items, 0) + seq![']'],
        JsonView::Object(entries) => seq!['{'] + emitted_entries(entries, 0) + seq!['}'],
    }
}

/// The elements of an array from the `i`-th on.
pub open spec fn emitted_items(items: Seq<JsonView>, i: int) -> Seq<char>
    decreases items, items.len() - i,
{
    if 0 <= i < items.len() {
        separator(i) + emitted(items[i]) + emitted_items(items, i + 1)
    } else {
        Seq::empty()
    }
}

/// The entries of an object from the `i`-th on.
pub open spec fn emitted_entries(entries: Seq<(Seq<char>, JsonView)>, i: int) -> Seq<char>
    decreases entries, entries.len() - i,
{
    if 0 <= i < entries.len() {
        separator(i) + quoted(entries[i].0) + seq![':'] + emitted(entries[i].1) + emitted_entries(
            entries,
            i + 1,
        )
    } else {
        Seq::empty()
    }
}

/// Appends a string in quotes.
fn emit_str(t: &str, out: &mut String)
    ensures
        final(out)@ == old(out)@ + quoted(t@),
{
    let ghost before = out@;
    out.push('"');
    let chars = chars_of(t);
    let mut i: usize = 0;
    assert(t@.take(0) =~= Seq::empty());
    assert(out@ =~= before + seq!['"'] + escaped_all(t@.take(0)));
    while i < chars.len()
        invariant
            i <= chars@.len(),
            chars@ == t@,
            out@ == before + seq!['"'] + escaped_all(t@.take(i as int)),
        decreases chars@.len() - i,
    {
        let c: char = chars[i];
        let ghost s = out@;
        if c == '"' {
            out.push('\\');
            out.push('"');
        } else if c == '\\' {
            out.push('\\');
            out.push('\\');
        } else if c == '\n' {
            out.push('\\');
            out.push('n');
        } else if c == '\r' {
            out.push('\\');
            out.push('r');
        } else if c == '\t' {
            out.push('\\');
            out.push('t');
        } else if c == '\x08' {
            out.push('\\');
            out.push('b');
        } else if c == '\x0C' {
            out.push('\\');
            out.push('f');
        } else if (c as u32) < 0x20 {
            out.push('\\');
            out.push('u');
            out.push('0');
            out.push('0');
            push_hex2_lower(out, c as u8);
        } else {
            out.push(c);
        }
        proof {
            assert(out@ =~= s + escaped(c));
            let head = t@.take(i + 1);
            assert(head.drop_last() =~= t@.take(i as int));
            assert(head.last() == c);
            assert(before + seq!['"'] + escaped_all(t@.take(i as int)) + escaped(c) =~= before + seq!['"']
                + escaped_all(head));
        }
        i += 1;
    }
    assert(t@.take(t@.len() as int) =~= t@);
    out.push('"');
    assert(out@ =~= before + quoted(t@));
}

/// Appends the text of a value.
fn emit_into(value: &Json, out: &mut String)
    ensures
        final(out)@ == old(out)@ + emitted(value@),
    decreases *value,
{
    let ghost before = out@;
    match value {
        Json::Null => {
            out.append("null");
        },
        Json::Bool(b) => {
            if *b {
                out.append("true");
            } else {
                out.append("false");
            }
        },
        Json::Num(JsonNumber::UInt(n)) => {
            push_decimal(out, *n);
        },
        Json::Num(JsonNumber::Int(n)) => {
            if *n < 0 {
                out.push('-');
                push_decimal(out, (-(*n + 1)) as u64 + 1);
                assert(out@ =~= before + signed_decimal(*n as int));
            } else {
                push_decimal(out, *n as u64);
            }
        },
        Json::Num(JsonNumber::Float(t)) => {
            out.append(t.as_str());
        },
        Json::Str(t) => {
            emit_str(t.as_str(), out);
        },
        Json::Array(items) => {
            proof {
                lemma_array_view(*items);
            }
            let ghost views = item_views(items@);
            out.push('[');
            let ghost goal = out@ + emitted_items(views, 0);
            let mut i: usize = 0;
            while i < items.len()
                invariant
                    i <= items@.len(),
                    *value == Json::Array(*items),
                    views == item_views(items@),
                    goal == out@ + emitted_items(views, i as int),
                decreases items@.len() - i,
            {
                let ghost s = out@;
                if i > 0 {
                    out.push(',');
                }
                assert(out@ =~= s + separator(i as int));
                assert(decreases_to!(value->Array_0 => items@));
                assert(decreases_to!(items@ => items@[i as int]));
                emit_into(&items[i], out);
                assert(out@ + emitted_items(views, i + 1) =~= s + emitted_items(views, i as int));
                i += 1;
            }
            assert(out@ =~= goal);
            out.push(']');
            assert(out@ =~= before + emitted(value@));
        },
        Json::Object(entries) => {
            proof {
                lemma_object_view(*entries);
            }
            let ghost views = entry_views(entries@);
            out.push('{');
            let ghost goal = out@ + emitted_entries(views, 0);
            let mut i: usize = 0;
            while i < entries.len()
                invariant
                    i <= entries@.len(),
                    *value == Json::Object(*entries),
                    views == entry_views(entries@),
                    goal == out@ + emitted_entries(views, i as int),
                decreases entries@.len() - i,
            {
                let ghost s = out@;
                if i > 0 {
                    out.push(',');
                }
                assert(out@ =~= s + separator(i as int));
                emit_str(entries[i].0.as_str(), out);
                out.push(':');
                assert(decreases_to!(value->Object_0 => entries@));
                assert(decreases_to!(entries@ => entries@[i as int]));
                emit_into(&entries[i].1, out);
                assert(out@ + emitted_entries(views, i + 1) =~= s + emitted_entries(views, i as int));
                i += 1;
            }
            assert(out@ =~= goal);
            out.push('}');
            assert(out@ =~= before + emitted(value@));
        },
    }
    assert(out@ =~= before + emitted(value@));
}

/// The text of `value`, without white space and with the keys in their order.
pub fn emit(value: &Json) -> (r: String)
    ensures
        r@ == emitted(value@),
{
    let mut out = String::new();
    emit_into(value, &mut out);
    assert(out@ =~= emitted(value@));
    out
}

/// The value of the first entry with that key.
pub open spec fn lookup(entries: Seq<(Seq<char>, JsonView)>, key: Seq<char>) -> Option<JsonView>
    decreases entries.len(),
{
    if entries.len() == 0 {
        None
    } else if entries[0].0 == key {
        Some(entries[0].1)
    } else {
        lookup(entries.skip(1), key)
    }
}

impl JsonView {
    /// What an object holds under a key.
    pub open spec fn member(self, key: Seq<char>) -> Option<JsonView> {
        match self {
            JsonView::Object(entries) => lookup(entries, key),
            _ => None,
        }
    }

    /// A number as `u64`: negative integers are none, floats are truncated.
    pub open spec fn to_u64(self) -> Option<u64> {
        match self {
            JsonView::UInt(n) => Some(n),
            JsonView::Int(n) => if n >= 0 {
                Some(n as u64)
            } else {
                None
            },
            JsonView::Float(t) => Some(float_to_u64(encode_utf8(t))),
            _ => None,
        }
    }

    pub open spec fn to_text(self) -> Option<Seq<char>> {
        match self {
            JsonView::Str(t) => Some(t),
            _ => None,
        }
    }

    pub open spec fn to_bool(self) -> Option<bool> {
        match self {
            JsonView::Bool(b) => Some(b),
            _ => None,
        }
    }
}

impl Json {
    /// What an object holds under `key`; of equal keys, the first.
    pub fn get(&self, key: &str) -> (r: Option<&Json>)
        ensures
            match self@.member(key@) {
                None => r is None,
                Some(v) => r matches Some(j) && j@ == v,
            },
    {
        match self {
            Json::Object(entries) => {
                proof {
                    lemma_object_view(*entries);
                }
                let ghost views = entry_views(entries@);
                let mut i: usize = 0;
                assert(views.skip(0) =~= views);
                while i < entries.len()
                    invariant
                        i <= entries@.len(),
                        views == entry_views(entries@),
                        self@.member(key@) == lookup(views, key@),
                        lookup(views, key@) == lookup(views.skip(i as int), key@),
                    decreases entries@.len() - i,
                {
                    if str_eq(entries[i].0.as_str(), key) {
                        return Some(&entries[i].1);
                    }
                    assert(views.skip(i as int).skip(1) =~= views.skip(i + 1));
                    i += 1;
                }
                None
            },
            _ => None,
        }
    }

    pub fn as_u64(&self) -> (r: Option<u64>)
        ensures
            r == self@.to_u64(),
    {
        match self {
            Json::Num(JsonNumber::UInt(n)) => Some(*n),
            Json::Num(JsonNumber::Int(n)) => if *n >= 0 {
                Some(*n as u64)
            } else {
                None
            },
            Json::Num(JsonNumber::Float(t)) => Some(float_lexeme_to_u64(t.as_str().as_bytes())),
            _ => None,
        }
    }

    pub fn as_str(&self) -> (r: Option<&str>)
        ensures
            match self@.to_text() {
                None => r is None,
                Some(text) => r matches Some(t) && t@ == text,
            },
    {
        match self {
            Json::Str(t) => Some(t.as_str()),
            _ => None,
        }
    }

    pub fn as_bool(&self) -> (r: Option<bool>)
        ensures
            r == self@.to_bool(),
    {
        match self {
            Json::Bool(b) => Some(*b),
            _ => None,
        }
    }

    /// An equal value of its own.
    pub fn duplicate(&self) -> (r: Json)
        ensures
            r@ == self@,
        decreases *self,
    {
        match self {
            Json::Null => Json::Null,
            Json::Bool(b) => Json::Bool(*b),
            Json::Num(JsonNumber::UInt(n)) => Json::Num(JsonNumber::UInt(*n)),
            Json::Num(JsonNumber::Int(n)) => Json::Num(JsonNumber::Int(*n)),
            Json::Num(JsonNumber::Float(t)) => Json::Num(JsonNumber::Float(t.as_str().to_owned())),
            Json::Str(t) => Json::Str(t.as_str().to_owned()),
            Json::Array(items) => {
                let mut out: Vec<Json> = Vec::new();
                let mut i: usize = 0;
                while i < items.len()
                    invariant
                        i <= items@.len(),
                        *self == Json::Array(*items),
                        item_views(out@) == item_views(items@).take(i as int),
                    decreases items@.len() - i,
                {
                    let ghost before = item_views(out@);
                    assert(decreases_to!(self->Array_0 => items@));
                    assert(decreases_to!(items@ => items@[i as int]));
                    out.push(items[i].duplicate());
                    assert(item_views(out@) =~= before.push(items@[i as int]@));
                    assert(item_views(out@) =~= item_views(items@).take(i + 1));
                    i += 1;
                }
                proof {
                    assert(item_views(out@) =~= item_views(items@));
                    lemma_array_view(out);
                    lemma_array_view(*items);
                }
                Json::Array(out)
            },
            Json::Object(entries) => {
                let mut out: Vec<(String, Json)> = Vec::new();
                let mut i: usize = 0;
                while i < entries.len()
                    invariant
                        i <= entries@.len(),
                        *self == Json::Object(*entries),
                        entry_views(out@) == entry_views(entries@).take(i as int),
                    decreases entries@.len() - i,
                {
                    let ghost before = entry_views(out@);
                    assert(decreases_to!(self->Object_0 => entries@));
                    assert(decreases_to!(entries@ => entries@[i as int]));
                    out.push((entries[i].0.as_str().to_owned(), entries[i].1.duplicate()));
                    assert(entry_views(out@) =~= before.push(
                        (entries@[i as int].0@, entries@[i as int].1@),
                    ));
                    assert(entry_views(out@) =~= entry_views(entries@).take(i + 1));
                    i += 1;
                }
                proof {
                    assert(entry_views(out@) =~= entry_views(entries@));
                    lemma_object_view(out);
                    lemma_object_view(*entries);
                }
                Json::Object(out)
            },
        }
    }
}

/// What a list of borrowed keys and values stands for.
pub open spec fn pair_views(pairs: Seq<(&str, Json)>) -> Seq<(Seq<char>, JsonView)> {
    Seq::new(pairs.len(), |i: int| (pairs[i].0@, pairs[i].1@))
}

/// An object with these entries.
pub fn obj(pairs: &[(&str, Json)]) -> (r: Json)
    ensures
        r@ == JsonView::Object(pair_views(pairs@)),
{
    let mut out: Vec<(String, Json)> = Vec::new();
    let mut i: usize = 0;
    while i < pairs.len()
        invariant
            i <= pairs@.len(),
            entry_views(out@) == pair_views(pairs@).take(i as int),
        decreases pairs@.len() - i,
    {
        let ghost before = entry_views(out@);
        out.push((pairs[i].0.to_owned(), pairs[i].1.duplicate()));
        assert(entry_views(out@) =~= before.push((pairs@[i as int].0@, pairs@[i as int].1@)));
        assert(entry_views(out@) =~= pair_views(pairs@).take(i + 1));
        i += 1;
    }
    proof {
        assert(entry_views(out@) =~= pair_views(pairs@));
        lemma_object_view(out);
    }
    Json::Object(out)
}

pub fn uint(n: u64) -> (r: Json)
    ensures
        r@ == JsonView::UInt(n),
{
    Json::Num(JsonNumber::UInt(n))
}

pub fn str_v(t: &str) -> (r: Json)
    ensures
        r@ == JsonView::Str(t@),
{
    Json::Str(t.to_owned())
}

pub fn bool_v(b: bool) -> (r: Json)
    ensures
        r@ == JsonView::Bool(b),
{
    Json::Bool(b)
}

pub fn array(items: Vec<Json>) -> (r: Json)
    ensures
        r@ == JsonView::Array(item_views(items@)),
{
    proof {
        lemma_array_view(items);
    }
    Json::Array(items)
}

} // verus!
