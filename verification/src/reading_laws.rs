//! Laws of reading JSON: what escapes stand for, which member counts, and which values are numbers, texts
//! and truths.

use crate::json::{hex_from, lookup, string_bytes, string_from, unicode_from, Json, JsonError, JsonView};
use crate::json_laws::lemma_encode_one;
use vstd::prelude::*;
use vstd::utf8::{encode_utf8, encode_utf8_decode_utf8, encode_utf8_valid_utf8};

verus! {

/// The character that a letter stands for behind a backslash.
pub open spec fn escaped_by(b: u8) -> Option<char> {
    if b == 'n' as u8 {
        Some('\n')
    } else if b == 't' as u8 {
        Some('\t')
    } else if b == 'r' as u8 {
        Some('\r')
    } else if b == 'b' as u8 {
        Some('\u{8}')
    } else if b == 'f' as u8 {
        Some('\u{C}')
    } else if b == '"' as u8 || b == '\\' as u8 || b == '/' as u8 {
        Some(b as char)
    } else {
        None
    }
}

/// Each of the short escapes stands for its character; a backslash before anything else is refused, but for
/// the long escapes.
pub proof fn law_short_escapes(b: u8, rest: Seq<u8>)
    ensures
        escaped_by(b) matches Some(c) ==> string_from(seq![0x5Cu8, b, 0x22] + rest) == Ok::<
            (Seq<char>, Seq<u8>),
            JsonError,
        >((seq![c], rest)),
        escaped_by(b) is None && b != 'u' as u8 ==> string_from(seq![0x5Cu8, b, 0x22] + rest) == Err::<
            (Seq<char>, Seq<u8>),
            JsonError,
        >(JsonError::InvalidEscape),
{
    let s = seq![0x5Cu8, b, 0x22] + rest;
    assert(s.skip(1).skip(1) =~= seq![0x22u8] + rest);
    assert((seq![0x22u8] + rest).skip(1) =~= rest);
    reveal_with_fuel(string_bytes, 3);
    if let Some(c) = escaped_by(b) {
        lemma_encode_one(c);
        encode_utf8_valid_utf8(seq![c]);
        encode_utf8_decode_utf8(seq![c]);
        assert(seq![c as u8] + Seq::<u8>::empty() =~= seq![c as u8]);
        assert(string_bytes(s) == Ok::<(Seq<u8>, Seq<u8>), JsonError>((seq![c as u8], rest)));
    }
}

/// A hexadecimal digit, in lower or in upper case.
pub open spec fn hex_byte(d: int, upper: bool) -> u8 {
    (if d < 10 {
        '0' as int + d
    } else if upper {
        'A' as int + d - 10
    } else {
        'a' as int + d - 10
    }) as u8
}

/// Four hexadecimal digits, in either case.
pub open spec fn four_digits(n: int, upper: bool) -> Seq<u8> {
    seq![
        hex_byte(n / 0x1000 % 16, upper),
        hex_byte(n / 0x100 % 16, upper),
        hex_byte(n / 0x10 % 16, upper),
        hex_byte(n % 16, upper),
    ]
}

proof fn lemma_four_digits(n: int, upper: bool, rest: Seq<u8>)
    requires
        0 <= n < 0x1_0000,
    ensures
        hex_from(four_digits(n, upper) + rest, 4, 0) == Ok::<(int, Seq<u8>), JsonError>((n, rest)),
{
    let a = n / 0x1000 % 16;
    let b = n / 0x100 % 16;
    let c = n / 0x10 % 16;
    let d = n % 16;
    assert(((a * 16 + b) * 16 + c) * 16 + d == n);
    let s3 = seq![hex_byte(d, upper)] + rest;
    let s2 = seq![hex_byte(c, upper)] + s3;
    let s1 = seq![hex_byte(b, upper)] + s2;
    assert(four_digits(n, upper) + rest =~= seq![hex_byte(a, upper)] + s1);
    assert(hex_from(rest, 0, n) == Ok::<(int, Seq<u8>), JsonError>((n, rest)));
    lemma_one_digit(d, upper, rest, 1, (a * 16 + b) * 16 + c);
    lemma_one_digit(c, upper, s3, 2, a * 16 + b);
    lemma_one_digit(b, upper, s2, 3, a);
    lemma_one_digit(a, upper, s1, 4, 0);
}

proof fn lemma_one_digit(d: int, upper: bool, rest: Seq<u8>, count: nat, code: int)
    requires
        0 <= d < 16,
        count > 0,
    ensures
        hex_from(seq![hex_byte(d, upper)] + rest, count, code) == hex_from(rest, (count - 1) as nat, code * 16 + d),
{
    assert((seq![hex_byte(d, upper)] + rest).skip(1) =~= rest);
}

/// A long escape stands for the character of its number, whatever the case of its digits. Characters beyond
/// 65535 take two, which halve what they are above that.
pub proof fn law_long_escapes(c: char, upper: bool, rest: Seq<u8>)
    ensures
        (c as int) < 0x1_0000 ==> unicode_from(four_digits(c as int, upper) + rest) == Ok::<
            (Seq<u8>, Seq<u8>),
            JsonError,
        >((encode_utf8(seq![c]), rest)),
        c as int >= 0x1_0000 ==> unicode_from(
            four_digits(0xD800 + (c as int - 0x1_0000) / 0x400, upper) + (seq![0x5Cu8, 0x75] + (four_digits(
                0xDC00 + (c as int - 0x1_0000) % 0x400,
                upper,
            ) + rest)),
        ) == Ok::<(Seq<u8>, Seq<u8>), JsonError>((encode_utf8(seq![c]), rest)),
{
    lemma_encode_one(c);
    if (c as int) < 0x1_0000 {
        lemma_four_digits(c as int, upper, rest);
    } else {
        let high = 0xD800 + (c as int - 0x1_0000) / 0x400;
        let low = 0xDC00 + (c as int - 0x1_0000) % 0x400;
        let tail = seq![0x5Cu8, 0x75] + (four_digits(low, upper) + rest);
        lemma_four_digits(high, upper, tail);
        lemma_four_digits(low, upper, rest);
        assert(tail.skip(2) =~= four_digits(low, upper) + rest);
    }
}

/// Half of a character is refused: the first half before anything but a second, and the second by itself.
pub proof fn law_half_characters_are_refused(n: int, other: int, upper: bool, rest: Seq<u8>)
    requires
        0xD800 <= n < 0xE000,
        0 <= other < 0x1_0000,
        other < 0xDC00 || 0xE000 <= other,
    ensures
        n >= 0xDC00 || rest.len() < 2 || rest[0] != 0x5C || rest[1] != 0x75 ==> unicode_from(
            four_digits(n, upper) + rest,
        ) == Err::<(Seq<u8>, Seq<u8>), JsonError>(JsonError::InvalidEscape),
        unicode_from(four_digits(n, upper) + (seq![0x5Cu8, 0x75] + (four_digits(other, upper) + rest))) == Err::<
            (Seq<u8>, Seq<u8>),
            JsonError,
        >(JsonError::InvalidEscape),
{
    lemma_four_digits(n, upper, rest);
    let tail = seq![0x5Cu8, 0x75] + (four_digits(other, upper) + rest);
    lemma_four_digits(n, upper, tail);
    lemma_four_digits(other, upper, rest);
    assert(tail.skip(2) =~= four_digits(other, upper) + rest);
}

/// Of several members with one name the first counts; a name that none has gives nothing, and so does what
/// is no object.
pub proof fn law_first_member_counts(entries: Seq<(Seq<char>, JsonView)>, key: Seq<char>, i: int)
    ensures
        0 <= i < entries.len() && entries[i].0 == key && (forall|j: int| 0 <= j < i ==> (#[trigger] entries[j]).0 != key)
            ==> JsonView::Object(entries).member(key) == Some(entries[i].1),
        (forall|j: int| 0 <= j < entries.len() ==> (#[trigger] entries[j]).0 != key) ==> JsonView::Object(
            entries,
        ).member(key) is None,
        JsonView::Null.member(key) is None,
    decreases entries.len(),
{
    assert(JsonView::Object(entries).member(key) == lookup(entries, key));
    if entries.len() > 0 && entries[0].0 != key {
        let tail = entries.skip(1);
        law_first_member_counts(tail, key, i - 1);
        assert(JsonView::Object(tail).member(key) == lookup(tail, key));
        assert forall|j: int| 0 <= j < tail.len() implies (#[trigger] tail[j]) == entries[j + 1] by {}
        if 0 < i < entries.len() {
            assert(tail[i - 1] == entries[i]);
        }
    } else if entries.len() > 0 {
        assert(entries[0].0 == key);
    }
}

/// Only numbers are numbers, and of those with a sign only the ones that are not negative; only texts are
/// texts, and only truths are truths.
pub proof fn law_values_are_what_they_are(v: &Json, n: Option<u64>, b: Option<bool>)
    requires
        call_ensures(Json::as_u64, (v,), n),
        call_ensures(Json::as_bool, (v,), b),
    ensures
        v@ matches JsonView::UInt(k) ==> n == Some(k),
        v@ matches JsonView::Int(k) ==> (if k < 0 {
            n is None
        } else {
            n is Some && n->0 == k
        }),
        v@ matches JsonView::Bool(t) ==> b == Some(t) && n is None,
        v@ is Str || v@ is Null || v@ is Array || v@ is Object ==> n is None && b is None,
        v@ is UInt || v@ is Int || v@ is Float ==> b is None,
{
}

} // verus!
