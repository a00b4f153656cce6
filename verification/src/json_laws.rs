//! Reading back what was written: parsing the text of a value gives the value.

use crate::json::{
    BACKSLASH, CLOSE_BRACE, CLOSE_BRACKET, COLON, COMMA, FALSE_WORD, JsonError, JsonView, LOWER_E, LOWER_U, MINUS,
    NULL_WORD, POINT, QUOTE, TRUE_WORD, UPPER_E, after_ws, ascii, digits_len, emitted, emitted_entries, emitted_items,
    entries_from, escape_from, escaped, escaped_all, heads, hex_from, hex_value, is_digit_byte, is_ws, items_from,
    lemma_digits_len_bound, number_from, number_shape, parsed, quoted, signed_decimal, string_bytes, string_from,
    value_from,
};
use crate::text::{decimal, hex2_lower, hex_lower, is_digit, law_decimal_reads_back};
use vstd::prelude::*;
use vstd::utf8::{
    encode_scalar, encode_utf8, encode_utf8_decode_utf8, encode_utf8_valid_utf8, has_width_1_encoding, is_ascii_chars,
    is_ascii_chars_encode_utf8, last_continuation_byte, leading_byte_width_2, leading_byte_width_3,
    leading_byte_width_4, second_last_continuation_byte, third_last_continuation_byte,
};

verus! {

/// Whether a lexeme is one that the parser reads as a float: it begins as a number and is a valid
/// float from end to end.
pub open spec fn is_float_text(t: Seq<char>) -> bool {
    let b = encode_utf8(t);
    &&& is_ascii_chars(t)
    &&& b.len() > 0
    &&& b[0] == MINUS || is_digit_byte(b[0])
    &&& number_shape(b).is_valid_float()
    &&& number_shape(b).end == b.len()
}

/// Whether a value is one that the parser can give: signed integers are negative and have a
/// positive counterpart, and floats are lexemes.
pub open spec fn is_readable(v: JsonView) -> bool
    decreases v,
{
    match v {
        JsonView::Int(n) => i64::MIN < n < 0,
        JsonView::Float(t) => is_float_text(t),
        JsonView::Array(items) => forall|i: int|
            0 <= i < items.len() ==> is_readable(#[trigger] items[i]),
        JsonView::Object(entries) => forall|i: int|
            0 <= i < entries.len() ==> is_readable((#[trigger] entries[i]).1),
        _ => true,
    }
}

/// Whether the bytes could be more of a number that stands before them.
pub open spec fn continues_number(s: Seq<u8>) -> bool {
    s.len() > 0 && (is_digit_byte(s[0]) || s[0] == POINT || s[0] == LOWER_E || s[0] == UPPER_E)
}

/// The encoding of two texts, one after the other.
pub proof fn lemma_encode_append(a: Seq<char>, b: Seq<char>)
    ensures
        encode_utf8(a + b) == encode_utf8(a) + encode_utf8(b),
    decreases a.len(),
{
    if a.len() == 0 {
        assert(a + b =~= b);
        assert(encode_utf8(a) + encode_utf8(b) =~= encode_utf8(b));
    } else {
        lemma_encode_append(a.drop_first(), b);
        assert((a + b).drop_first() =~= a.drop_first() + b);
        assert(encode_scalar(a[0] as u32) + (encode_utf8(a.drop_first()) + encode_utf8(b)) =~= (encode_scalar(
            a[0] as u32,
        ) + encode_utf8(a.drop_first())) + encode_utf8(b));
    }
}

/// The encoding of one character.
pub(crate) proof fn lemma_encode_one(c: char)
    ensures
        encode_utf8(seq![c]) == encode_scalar(c as u32),
        (c as u32) < 0x80 ==> encode_utf8(seq![c]) == seq![c as u8],
{
    assert(seq![c].drop_first() =~= Seq::empty());
    assert(encode_utf8(Seq::<char>::empty()) =~= Seq::empty());
    assert(encode_scalar(c as u32) + Seq::<u8>::empty() =~= encode_scalar(c as u32));
    if (c as u32) < 0x80 {
        assert(is_ascii_chars(seq![c]));
        is_ascii_chars_encode_utf8(seq![c]);
        assert(encode_utf8(seq![c]) =~= seq![c as u8]);
    }
}

/// `r` with `head` before its bytes.
spec fn prepend(head: Seq<u8>, r: Result<(Seq<u8>, Seq<u8>), JsonError>) -> Result<
    (Seq<u8>, Seq<u8>),
    JsonError,
> {
    match r {
        Err(e) => Err(e),
        Ok((more, end)) => Ok((head + more, end)),
    }
}

/// A byte that stands for itself inside a string.
spec fn is_plain(b: u8) -> bool {
    b >= 0x20 && b != QUOTE && b != BACKSLASH
}

proof fn lemma_plain_bytes(raw: Seq<u8>, s: Seq<u8>)
    requires
        forall|i: int| 0 <= i < raw.len() ==> is_plain(#[trigger] raw[i]),
    ensures
        string_bytes(raw + s) == prepend(raw, string_bytes(s)),
    decreases raw.len(),
{
    if raw.len() == 0 {
        assert(raw + s =~= s);
        if let Ok((more, end)) = string_bytes(s) {
            assert(raw + more =~= more);
        }
    } else {
        let tail = raw.skip(1);
        assert forall|i: int| 0 <= i < tail.len() implies is_plain(#[trigger] tail[i]) by {
            assert(tail[i] == raw[i + 1]);
        }
        lemma_plain_bytes(tail, s);
        assert((raw + s).skip(1) =~= tail + s);
        assert(is_plain(raw[0]));
        if let Ok((more, end)) = string_bytes(s) {
            assert(seq![raw[0]] + (tail + more) =~= raw + more);
        }
    }
}

/// The bytes of a character that needs no escape stand for themselves.
proof fn lemma_scalar_is_plain(c: char)
    requires
        c as u32 >= 0x20,
        c != '"',
        c != '\\',
    ensures
        forall|i: int|
            0 <= i < encode_scalar(c as u32).len() ==> is_plain(#[trigger] encode_scalar(c as u32)[i]),
{
    let v = c as u32;
    if has_width_1_encoding(v) {
        lemma_encode_one(c);
    } else {
        assert(leading_byte_width_2(v) >= 0x80) by (bit_vector);
        assert(leading_byte_width_3(v) >= 0x80) by (bit_vector);
        assert(leading_byte_width_4(v) >= 0x80) by (bit_vector);
        assert(last_continuation_byte(v) >= 0x80) by (bit_vector);
        assert(second_last_continuation_byte(v) >= 0x80) by (bit_vector);
        assert(third_last_continuation_byte(v) >= 0x80) by (bit_vector);
    }
}

proof fn lemma_hex_reads_back(d: int)
    requires
        0 <= d < 16,
    ensures
        hex_value(hex_lower(d) as u8) == Some(d),
{
}

/// A control character's escape reads back.
proof fn lemma_control_escape(c: char, s: Seq<u8>)
    requires
        (c as u32) < 0x20,
    ensures
        string_bytes(encode_utf8(seq!['\\', 'u', '0', '0'] + hex2_lower(c as u8)) + s) == prepend(
            encode_utf8(seq![c]),
            string_bytes(s),
        ),
{
    let b = c as u8;
    let text = seq!['\\', 'u', '0', '0'] + hex2_lower(b);
    let h = hex_lower(b as int / 16);
    let l = hex_lower(b as int % 16);
    assert(text =~= seq!['\\', 'u', '0', '0', h, l]);
    assert(is_ascii_chars(text));
    is_ascii_chars_encode_utf8(text);
    let raw = seq![BACKSLASH, LOWER_U, 0x30u8, 0x30u8, h as u8, l as u8];
    assert(encode_utf8(text) =~= raw);
    let all = raw + s;
    assert(all.skip(1).skip(1) =~= seq![0x30u8, 0x30u8, h as u8, l as u8] + s);
    let d = all.skip(1).skip(1);
    reveal_with_fuel(hex_from, 5);
    assert(d.skip(1).skip(1).skip(1).skip(1) =~= s);
    lemma_hex_reads_back(b as int / 16);
    lemma_hex_reads_back(b as int % 16);
    assert(d[0] == 0x30 && d.skip(1)[0] == 0x30 && d.skip(1).skip(1)[0] == h as u8
        && d.skip(1).skip(1).skip(1)[0] == l as u8);
    assert(hex_value(0x30) == Some(0int));
    assert(hex_from(d, 4, 0) == Ok::<(int, Seq<u8>), JsonError>((b as int, s)));
    assert(escape_from(all.skip(1)) == Ok::<(Seq<u8>, Seq<u8>), JsonError>((encode_scalar(c as u32), s)));
    lemma_encode_one(c);
}

/// What a character is written as reads back as that character.
proof fn lemma_escape_reads_back(c: char, s: Seq<u8>)
    ensures
        string_bytes(encode_utf8(escaped(c)) + s) == prepend(encode_utf8(seq![c]), string_bytes(s)),
{
    lemma_encode_one(c);
    let text = escaped(c);
    if c == '"' || c == '\\' || c == '\n' || c == '\r' || c == '\t' || c == '\x08' || c == '\x0C' {
        assert(text.len() == 2);
        assert(is_ascii_chars(text));
        is_ascii_chars_encode_utf8(text);
        let raw = seq![BACKSLASH, text[1] as u8];
        assert(encode_utf8(text) =~= raw);
        let all = raw + s;
        assert(all.skip(1).skip(1) =~= s);
        assert(all.skip(1)[0] == text[1] as u8);
        assert(escape_from(all.skip(1)) == Ok::<(Seq<u8>, Seq<u8>), JsonError>((seq![c as u8], s)));
    } else if (c as u32) < 0x20 {
        lemma_control_escape(c, s);
    } else {
        lemma_scalar_is_plain(c);
        lemma_plain_bytes(encode_scalar(c as u32), s);
    }
}

proof fn lemma_escaped_text_reads_back(t: Seq<char>, s: Seq<u8>)
    ensures
        string_bytes(encode_utf8(escaped_all(t)) + s) == prepend(encode_utf8(t), string_bytes(s)),
    decreases t.len(),
{
    if t.len() == 0 {
        assert(encode_utf8(escaped_all(t)) + s =~= s);
        if let Ok((more, end)) = string_bytes(s) {
            assert(encode_utf8(t) + more =~= more);
        }
    } else {
        let head = t.drop_last();
        let c = t.last();
        lemma_encode_append(escaped_all(head), escaped(c));
        lemma_encode_append(head, seq![c]);
        assert(head + seq![c] =~= t);
        let rest = encode_utf8(escaped(c)) + s;
        assert(encode_utf8(escaped_all(t)) + s =~= encode_utf8(escaped_all(head)) + rest);
        lemma_escaped_text_reads_back(head, rest);
        lemma_escape_reads_back(c, s);
        if let Ok((more, end)) = string_bytes(s) {
            assert(encode_utf8(head) + (encode_utf8(seq![c]) + more) =~= encode_utf8(t) + more);
        }
    }
}

/// A quoted string reads back.
proof fn lemma_quoted_reads_back(t: Seq<char>, s: Seq<u8>)
    ensures
        heads(encode_utf8(quoted(t)) + s, QUOTE),
        string_from((encode_utf8(quoted(t)) + s).skip(1)) == Ok::<(Seq<char>, Seq<u8>), JsonError>((t, s)),
{
    let q = seq!['"'];
    lemma_encode_one('"');
    lemma_encode_append(q + escaped_all(t), q);
    lemma_encode_append(q, escaped_all(t));
    let all = encode_utf8(quoted(t)) + s;
    let rest = seq![QUOTE] + s;
    assert(all =~= seq![QUOTE] + (encode_utf8(escaped_all(t)) + rest));
    assert(all.skip(1) =~= encode_utf8(escaped_all(t)) + rest);
    lemma_escaped_text_reads_back(t, rest);
    assert(rest.skip(1) =~= s);
    assert(string_bytes(rest) == Ok::<(Seq<u8>, Seq<u8>), JsonError>((Seq::empty(), s)));
    assert(encode_utf8(t) + Seq::<u8>::empty() =~= encode_utf8(t));
    encode_utf8_valid_utf8(t);
    encode_utf8_decode_utf8(t);
}

/// Digits are counted up to the first byte that is none.
proof fn lemma_digits_extend(d: Seq<u8>, s: Seq<u8>)
    requires
        s.len() == 0 || !is_digit_byte(s[0]),
    ensures
        digits_len(d + s) == digits_len(d),
    decreases d.len(),
{
    if d.len() == 0 {
        assert(d + s =~= s);
    } else if is_digit_byte(d[0]) {
        lemma_digits_extend(d.skip(1), s);
        assert((d + s).skip(1) =~= d.skip(1) + s);
    }
}

proof fn lemma_all_digits_len(d: Seq<u8>)
    requires
        forall|i: int| 0 <= i < d.len() ==> is_digit_byte(#[trigger] d[i]),
    ensures
        digits_len(d) == d.len(),
    decreases d.len(),
{
    if d.len() > 0 {
        let tail = d.skip(1);
        assert forall|i: int| 0 <= i < tail.len() implies is_digit_byte(#[trigger] tail[i]) by {
            assert(tail[i] == d[i + 1]);
        }
        lemma_all_digits_len(tail);
        assert(is_digit_byte(d[0]));
    }
}

/// The bytes of a numeral.
proof fn lemma_decimal_bytes(n: nat)
    ensures
        encode_utf8(decimal(n)).len() == decimal(n).len() >= 1,
        forall|i: int|
            0 <= i < decimal(n).len() ==> is_digit_byte(#[trigger] encode_utf8(decimal(n))[i]),
        ascii(encode_utf8(decimal(n))) == decimal(n),
{
    law_decimal_reads_back(n);
    let t = decimal(n);
    assert(is_ascii_chars(t)) by {
        assert forall|i: int| 0 <= i < t.len() implies '\0' <= #[trigger] t[i] <= '\u{7f}' by {}
    }
    is_ascii_chars_encode_utf8(t);
    let b = encode_utf8(t);
    assert forall|i: int| 0 <= i < t.len() implies is_digit_byte(#[trigger] b[i]) by {
        assert(is_digit(t[i]));
        assert(t[i] as u8 == b[i]);
    }
    assert(ascii(b) =~= t) by {
        assert forall|i: int| 0 <= i < t.len() implies ascii(b)[i] == t[i] by {
            assert(is_digit(t[i]));
            assert(t[i] as u8 == b[i]);
        }
    }
}

proof fn lemma_uint_reads_back(n: u64, s: Seq<u8>)
    requires
        !continues_number(s),
    ensures
        number_from(encode_utf8(decimal(n as nat)) + s) == Ok::<(JsonView, Seq<u8>), JsonError>(
            (JsonView::UInt(n), s),
        ),
        is_digit_byte((encode_utf8(decimal(n as nat)) + s)[0]),
{
    let d = encode_utf8(decimal(n as nat));
    lemma_decimal_bytes(n as nat);
    law_decimal_reads_back(n as nat);
    let all = d + s;
    assert(is_digit_byte(d[0]));
    assert(all.skip(0) =~= all);
    lemma_all_digits_len(d);
    lemma_digits_extend(d, s);
    assert(all.take(d.len() as int) =~= d);
    assert(all.skip(d.len() as int) =~= s);
    assert(decimal(n as nat)[0] != '+') by {
        assert(is_digit(decimal(n as nat)[0]));
    }
}

proof fn lemma_int_reads_back(n: i64, s: Seq<u8>)
    requires
        i64::MIN < n < 0,
        !continues_number(s),
    ensures
        number_from(encode_utf8(signed_decimal(n as int)) + s) == Ok::<(JsonView, Seq<u8>), JsonError>(
            (JsonView::Int(n), s),
        ),
        heads(encode_utf8(signed_decimal(n as int)) + s, MINUS),
{
    let m = (-(n as int)) as nat;
    let d = encode_utf8(decimal(m));
    lemma_decimal_bytes(m);
    law_decimal_reads_back(m);
    lemma_encode_one('-');
    lemma_encode_append(seq!['-'], decimal(m));
    let all = encode_utf8(signed_decimal(n as int)) + s;
    assert(all =~= seq![MINUS] + (d + s));
    assert(all.skip(1) =~= d + s);
    lemma_all_digits_len(d);
    lemma_digits_extend(d, s);
    assert(all.subrange(1, 1 + d.len() as int) =~= d);
    assert(all.skip(1 + d.len() as int) =~= s);
    assert(decimal(m)[0] != '+') by {
        assert(is_digit(decimal(m)[0]));
    }
}

proof fn lemma_float_reads_back(t: Seq<char>, s: Seq<u8>)
    requires
        is_float_text(t),
        !continues_number(s),
    ensures
        number_from(encode_utf8(t) + s) == Ok::<(JsonView, Seq<u8>), JsonError>((JsonView::Float(t), s)),
{
    let b = encode_utf8(t);
    let all = b + s;
    let n = number_shape(b);
    let start: int = if n.negative {
        1
    } else {
        0
    };
    assert(all.skip(start) =~= b.skip(start) + s);
    lemma_digits_len_bound(b.skip(start));
    lemma_digits_extend(b.skip(start), s);
    let p = start + n.whole;
    if n.point {
        assert(all.skip(p + 1) =~= b.skip(p + 1) + s);
        lemma_digits_len_bound(b.skip(p + 1));
        lemma_digits_extend(b.skip(p + 1), s);
    }
    if n.exponent {
        let x = n.end - n.exponent_digits;
        assert(all.skip(x) =~= b.skip(x) + s);
        lemma_digits_extend(b.skip(x), s);
    }
    assert(number_shape(all) == n);
    assert(all.take(n.end) =~= b);
    assert(all.skip(n.end) =~= s);
    is_ascii_chars_encode_utf8(t);
    assert(ascii(b) =~= t) by {
        assert forall|i: int| 0 <= i < t.len() implies ascii(b)[i] == t[i] by {
            assert(t[i] as u8 == b[i]);
        }
    }
}

proof fn lemma_no_ws(s: Seq<u8>)
    requires
        s.len() == 0 || !is_ws(s[0]),
    ensures
        after_ws(s) == s,
{
}

/// How the text of a readable value begins.
proof fn lemma_first_byte(v: JsonView)
    requires
        is_readable(v),
    ensures
        ({
            let b = encode_utf8(emitted(v));
            &&& b.len() > 0
            &&& !is_ws(b[0])
            &&& b[0] != CLOSE_BRACKET
            &&& b[0] != CLOSE_BRACE
        }),
{
    match v {
        JsonView::Null | JsonView::Bool(_) => {
            lemma_words();
        },
        JsonView::UInt(n) => {
            lemma_uint_reads_back(n, Seq::empty());
            assert(encode_utf8(decimal(n as nat)) + Seq::<u8>::empty() =~= encode_utf8(decimal(n as nat)));
        },
        JsonView::Int(n) => {
            lemma_int_reads_back(n, Seq::empty());
            assert(encode_utf8(signed_decimal(n as int)) + Seq::<u8>::empty() =~= encode_utf8(
                signed_decimal(n as int),
            ));
        },
        JsonView::Float(t) => {},
        JsonView::Str(t) => {
            lemma_quoted_reads_back(t, Seq::empty());
            assert(encode_utf8(quoted(t)) + Seq::<u8>::empty() =~= encode_utf8(quoted(t)));
        },
        JsonView::Array(items) => {
            lemma_encode_one('[');
            lemma_encode_append(seq!['['], emitted_items(items, 0) + seq![']']);
            assert(emitted(v) =~= seq!['['] + (emitted_items(items, 0) + seq![']']));
        },
        JsonView::Object(entries) => {
            lemma_encode_one('{');
            lemma_encode_append(seq!['{'], emitted_entries(entries, 0) + seq!['}']);
            assert(emitted(v) =~= seq!['{'] + (emitted_entries(entries, 0) + seq!['}']));
        },
    }
}

/// The bytes of the three words.
proof fn lemma_words()
    ensures
        encode_utf8("null"@) == NULL_WORD@,
        encode_utf8("true"@) == TRUE_WORD@,
        encode_utf8("false"@) == FALSE_WORD@,
{
    reveal_strlit("null");
    reveal_strlit("true");
    reveal_strlit("false");
    assert(is_ascii_chars("null"@));
    assert(is_ascii_chars("true"@));
    assert(is_ascii_chars("false"@));
    is_ascii_chars_encode_utf8("null"@);
    is_ascii_chars_encode_utf8("true"@);
    is_ascii_chars_encode_utf8("false"@);
    assert(encode_utf8("null"@) =~= NULL_WORD@);
    assert(encode_utf8("true"@) =~= TRUE_WORD@);
    assert(encode_utf8("false"@) =~= FALSE_WORD@);
}

/// A readable value's text, with something behind it that is no more of a number, reads back.
#[verifier::spinoff_prover]
#[verifier::rlimit(60)]
proof fn lemma_value_reads_back(v: JsonView, s: Seq<u8>)
    requires
        is_readable(v),
        !continues_number(s),
    ensures
        value_from(encode_utf8(emitted(v)) + s) == Ok::<(JsonView, Seq<u8>), JsonError>((v, s)),
    decreases v, 0int,
{
    let b = encode_utf8(emitted(v));
    let all = b + s;
    lemma_first_byte(v);
    lemma_no_ws(all);
    assert(all[0] == b[0]);
    match v {
        JsonView::Null | JsonView::Bool(_) => {
            lemma_words();
            assert(all.take(b.len() as int) =~= b);
            assert(all.skip(b.len() as int) =~= s);
        },
        JsonView::UInt(n) => {
            lemma_uint_reads_back(n, s);
        },
        JsonView::Int(n) => {
            lemma_int_reads_back(n, s);
        },
        JsonView::Float(t) => {
            lemma_float_reads_back(t, s);
        },
        JsonView::Str(t) => {
            lemma_quoted_reads_back(t, s);
        },
        JsonView::Array(items) => {
            let body = emitted_items(items, 0);
            lemma_encode_one('[');
            lemma_encode_one(']');
            lemma_encode_append(seq!['['], body + seq![']']);
            lemma_encode_append(body, seq![']']);
            assert(emitted(v) =~= seq!['['] + (body + seq![']']));
            let rest = encode_utf8(body) + (seq![CLOSE_BRACKET] + s);
            assert(all.skip(1) =~= rest);
            if items.len() == 0 {
                assert(body =~= Seq::empty());
                assert(rest =~= seq![CLOSE_BRACKET] + s);
                lemma_no_ws(rest);
                assert(rest.skip(1) =~= s);
                assert(items =~= Seq::empty());
            } else {
                let first = emitted(items[0]);
                assert(body =~= first + emitted_items(items, 1));
                lemma_encode_append(first, emitted_items(items, 1));
                lemma_first_byte(items[0]);
                assert(rest[0] == encode_utf8(first)[0]);
                lemma_no_ws(rest);
                lemma_items_read_back(items, 0, s);
                assert(items.skip(0) =~= items);
            }
        },
        JsonView::Object(entries) => {
            let body = emitted_entries(entries, 0);
            lemma_encode_one('{');
            lemma_encode_one('}');
            lemma_encode_append(seq!['{'], body + seq!['}']);
            lemma_encode_append(body, seq!['}']);
            assert(emitted(v) =~= seq!['{'] + (body + seq!['}']));
            let rest = encode_utf8(body) + (seq![CLOSE_BRACE] + s);
            assert(all.skip(1) =~= rest);
            if entries.len() == 0 {
                assert(body =~= Seq::empty());
                assert(rest =~= seq![CLOSE_BRACE] + s);
                lemma_no_ws(rest);
                assert(rest.skip(1) =~= s);
                assert(entries =~= Seq::empty());
            } else {
                lemma_entries_read_back(entries, 0, s);
                assert(body =~= quoted(entries[0].0) + (seq![':'] + emitted(entries[0].1) + emitted_entries(
                    entries,
                    1,
                )));
                lemma_encode_append(
                    quoted(entries[0].0),
                    seq![':'] + emitted(entries[0].1) + emitted_entries(entries, 1),
                );
                lemma_quoted_reads_back(entries[0].0, Seq::empty());
                assert(encode_utf8(quoted(entries[0].0)) + Seq::<u8>::empty() =~= encode_utf8(
                    quoted(entries[0].0),
                ));
                assert(rest[0] == QUOTE);
                lemma_no_ws(rest);
                assert(entries.skip(0) =~= entries);
            }
        },
    }
}

/// The elements from the `i`-th on, without the comma before them.
spec fn items_tail(items: Seq<JsonView>, i: int) -> Seq<char> {
    emitted(items[i]) + emitted_items(items, i + 1)
}

proof fn lemma_items_read_back(items: Seq<JsonView>, i: int, s: Seq<u8>)
    requires
        0 <= i < items.len(),
        forall|k: int| 0 <= k < items.len() ==> is_readable(#[trigger] items[k]),
    ensures
        items_from(encode_utf8(items_tail(items, i)) + (seq![CLOSE_BRACKET] + s)) == Ok::<
            (Seq<JsonView>, Seq<u8>),
            JsonError,
        >((items.skip(i), s)),
        i == 0 ==> items_tail(items, i) == emitted_items(items, 0),
    decreases items, items.len() - i,
{
    let close = seq![CLOSE_BRACKET] + s;
    let more = emitted_items(items, i + 1);
    lemma_encode_append(emitted(items[i]), more);
    let rest = encode_utf8(more) + close;
    let all = encode_utf8(items_tail(items, i)) + close;
    assert(all =~= encode_utf8(emitted(items[i])) + rest);
    assert(is_readable(items[i]));
    if i == 0 {
        assert(items_tail(items, 0) =~= emitted_items(items, 0));
    }
    if i + 1 < items.len() {
        lemma_encode_one(',');
        assert(more =~= seq![','] + items_tail(items, i + 1));
        lemma_encode_append(seq![','], items_tail(items, i + 1));
        let next = encode_utf8(items_tail(items, i + 1)) + close;
        assert(rest =~= seq![COMMA] + next);
        assert(decreases_to!(items => items[i]));
        lemma_value_reads_back(items[i], rest);
        lemma_no_ws(rest);
        assert(rest.skip(1) =~= next);
        lemma_items_read_back(items, i + 1, s);
        assert(seq![items[i]] + items.skip(i + 1) =~= items.skip(i));
    } else {
        assert(more =~= Seq::empty());
        assert(rest =~= close);
        assert(decreases_to!(items => items[i]));
        lemma_value_reads_back(items[i], rest);
        lemma_no_ws(rest);
        assert(rest.skip(1) =~= s);
        assert(seq![items[i]] =~= items.skip(i));
    }
}

/// The entries from the `i`-th on, without the comma before them.
spec fn entries_tail(entries: Seq<(Seq<char>, JsonView)>, i: int) -> Seq<char> {
    quoted(entries[i].0) + (seq![':'] + (emitted(entries[i].1) + emitted_entries(entries, i + 1)))
}

proof fn lemma_entries_read_back(entries: Seq<(Seq<char>, JsonView)>, i: int, s: Seq<u8>)
    requires
        0 <= i < entries.len(),
        forall|k: int| 0 <= k < entries.len() ==> is_readable((#[trigger] entries[k]).1),
    ensures
        entries_from(encode_utf8(entries_tail(entries, i)) + (seq![CLOSE_BRACE] + s)) == Ok::<
            (Seq<(Seq<char>, JsonView)>, Seq<u8>),
            JsonError,
        >((entries.skip(i), s)),
        i == 0 ==> entries_tail(entries, i) == emitted_entries(entries, 0),
    decreases entries, entries.len() - i,
{
    let close = seq![CLOSE_BRACE] + s;
    let key = entries[i].0;
    let v = entries[i].1;
    let more = emitted_entries(entries, i + 1);
    let after_colon = emitted(v) + more;
    lemma_encode_one(':');
    lemma_encode_append(quoted(key), seq![':'] + after_colon);
    lemma_encode_append(seq![':'], after_colon);
    lemma_encode_append(emitted(v), more);
    let rest = encode_utf8(more) + close;
    let value_part = encode_utf8(emitted(v)) + rest;
    let colon_part = seq![COLON] + value_part;
    let all = encode_utf8(entries_tail(entries, i)) + close;
    assert(all =~= encode_utf8(quoted(key)) + colon_part);
    lemma_quoted_reads_back(key, colon_part);
    lemma_no_ws(all);
    lemma_no_ws(colon_part);
    assert(colon_part.skip(1) =~= value_part);
    assert(is_readable(entries[i].1));
    if i == 0 {
        assert(entries_tail(entries, 0) =~= emitted_entries(entries, 0));
    }
    if i + 1 < entries.len() {
        lemma_encode_one(',');
        assert(more =~= seq![','] + entries_tail(entries, i + 1));
        lemma_encode_append(seq![','], entries_tail(entries, i + 1));
        let next = encode_utf8(entries_tail(entries, i + 1)) + close;
        assert(rest =~= seq![COMMA] + next);
        assert(decreases_to!(entries => entries[i]));
        lemma_value_reads_back(entries[i].1, rest);
        lemma_no_ws(rest);
        assert(rest.skip(1) =~= next);
        lemma_entries_read_back(entries, i + 1, s);
        assert(seq![(key, v)] + entries.skip(i + 1) =~= entries.skip(i));
    } else {
        assert(more =~= Seq::empty());
        assert(rest =~= close);
        assert(decreases_to!(entries => entries[i]));
        lemma_value_reads_back(entries[i].1, rest);
        lemma_no_ws(rest);
        assert(rest.skip(1) =~= s);
        assert(seq![(key, v)] =~= entries.skip(i));
    }
}

/// Whether `s` holds nothing but white space.
pub open spec fn is_blank(s: Seq<u8>) -> bool {
    forall|i: int| 0 <= i < s.len() ==> is_ws(#[trigger] s[i])
}

/// White space in front is skipped.
proof fn lemma_blank_is_skipped(blank: Seq<u8>, s: Seq<u8>)
    requires
        is_blank(blank),
    ensures
        after_ws(blank + s) == after_ws(s),
    decreases blank.len(),
{
    if blank.len() == 0 {
        assert(blank + s =~= s);
    } else {
        assert(is_ws(blank[0]));
        assert forall|i: int| 0 <= i < blank.skip(1).len() implies is_ws(#[trigger] blank.skip(1)[i]) by {
            assert(is_ws(blank[i + 1]));
        }
        assert((blank + s).skip(1) =~= blank.skip(1) + s);
        lemma_blank_is_skipped(blank.skip(1), s);
    }
}

/// The text of a value that the parser can give parses to that value.
pub proof fn law_parsing_undoes_emitting(v: JsonView)
    requires
        is_readable(v),
    ensures
        parsed(encode_utf8(emitted(v))) == Ok::<JsonView, JsonError>(v),
{
    let b = encode_utf8(emitted(v));
    law_white_space_around_is_ignored(Seq::empty(), v, Seq::empty());
    assert(Seq::<u8>::empty() + b + Seq::<u8>::empty() =~= b);
}

/// White space before and behind the text of a value does not change what it parses to.
pub proof fn law_white_space_around_is_ignored(before: Seq<u8>, v: JsonView, behind: Seq<u8>)
    requires
        is_readable(v),
        is_blank(before),
        is_blank(behind),
    ensures
        parsed(before + encode_utf8(emitted(v)) + behind) == Ok::<JsonView, JsonError>(v),
{
    let b = encode_utf8(emitted(v));
    lemma_first_byte(v);
    assert(before + b + behind =~= before + (b + behind));
    lemma_blank_is_skipped(before, b + behind);
    lemma_no_ws(b + behind);
    assert(behind.len() > 0 ==> is_ws(behind[0]));
    lemma_value_reads_back(v, behind);
    lemma_blank_is_skipped(behind, Seq::empty());
    assert(behind + Seq::<u8>::empty() =~= behind);
    lemma_no_ws(Seq::empty());
}

} // verus!
