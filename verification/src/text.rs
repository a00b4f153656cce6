//! Text helpers: strings as sequences of characters, decimal and hexadecimal numerals, trimming,
//! searching and splitting.

use crate::bytes::bytes_eq;
use vstd::prelude::*;
use vstd::slice::{slice_subrange, slice_to_vec};
use vstd::utf8::{decode_utf8, is_ascii_chars, is_scalar, valid_utf8};

verus! {

/// `String::push` appends one character.
pub assume_specification[ String::push ](s: &mut String, c: char)
    ensures
        final(s)@ == old(s)@.push(c),
;

/// `str::from_utf8` gives the text that the bytes encode, and nothing unless they are valid UTF-8.
#[verifier::external_body]
pub(crate) fn utf8_text(bytes: &[u8]) -> (r: Option<&str>)
    ensures
        r is Some <==> valid_utf8(bytes@),
        r is Some ==> r->0@ == decode_utf8(bytes@),
{
    std::str::from_utf8(bytes).ok()
}

/// The text that `String::from_utf8_lossy` makes of `bytes`, with replacement characters where they
/// are not UTF-8.
pub uninterp spec fn lossy_text(bytes: Seq<u8>) -> Seq<char>;

/// `String::from_utf8_lossy`, which gives back valid UTF-8 unchanged, and puts the replacement
/// character in place of what is not UTF-8.
#[verifier::external_body]
pub(crate) fn utf8_lossy(bytes: &[u8]) -> (r: String)
    ensures
        r@ == lossy_text(bytes@),
        valid_utf8(bytes@) ==> r@ == decode_utf8(bytes@),
        !valid_utf8(bytes@) ==> r@.contains('\u{FFFD}'),
{
    String::from_utf8_lossy(bytes).into_owned()
}

/// The text in `bytes`: what they encode, with replacement characters where they are not UTF-8.
pub open spec fn text_in(bytes: Seq<u8>) -> Seq<char> {
    if valid_utf8(bytes) {
        decode_utf8(bytes)
    } else {
        lossy_text(bytes)
    }
}

/// `char::from_u32`, which gives the character with that number, and none for numbers that are not
/// Unicode scalar values.
#[verifier::external_body]
pub(crate) fn char_from(code: u32) -> (r: Option<char>)
    ensures
        r is Some <==> is_scalar(code),
        r is Some ==> r->0 as u32 == code,
{
    char::from_u32(code)
}

/// The text that `str::to_uppercase` makes of `s`.
pub uninterp spec fn upper_text(s: Seq<char>) -> Seq<char>;

/// `str::to_uppercase`, which turns the ASCII letters of an ASCII text into capitals and keeps the
/// rest.
#[verifier::external_body]
pub(crate) fn to_upper(s: &str) -> (r: String)
    ensures
        r@ == upper_text(s@),
        is_ascii_chars(s@) ==> r@ == uppered(s@),
{
    s.to_uppercase()
}

/// The characters of `s`.
pub fn chars_of(s: &str) -> (r: Vec<char>)
    ensures
        r@ == s@,
{
    let mut out: Vec<char> = Vec::new();
    for c in it: s.chars()
        invariant
            it.seq() == s@,
            out@ == s@.take(it.index() as int),
    {
        out.push(c);
        assert(out@ =~= s@.take(it.index() + 1));
    }
    assert(s@.take(s@.len() as int) =~= s@);
    out
}

/// The string of the characters `v[from..to]`.
pub fn string_of(v: &[char], from: usize, to: usize) -> (r: String)
    requires
        from <= to <= v@.len(),
    ensures
        r@ == v@.subrange(from as int, to as int),
{
    let mut out: String = String::new();
    let mut i: usize = from;
    assert(out@ =~= v@.subrange(from as int, from as int));
    while i < to
        invariant
            from <= i <= to <= v@.len(),
            out@ == v@.subrange(from as int, i as int),
        decreases to - i,
    {
        out.push(v[i]);
        i += 1;
        assert(out@ =~= v@.subrange(from as int, i as int));
    }
    out
}

/// Whether two strings are equal.
pub fn str_eq(a: &str, b: &str) -> (r: bool)
    ensures
        r == (a@ == b@),
{
    proof {
        vstd::utf8::encode_utf8_decode_utf8(a@);
        vstd::utf8::encode_utf8_decode_utf8(b@);
    }
    bytes_eq(a.as_bytes(), b.as_bytes())
}

/// The decimal digit `d`.
pub open spec fn digit(d: int) -> char {
    (0x30 + d) as char
}

/// The decimal numeral of `n`.
pub open spec fn decimal(n: nat) -> Seq<char>
    decreases n,
{
    if n < 10 {
        seq![digit(n as int)]
    } else {
        decimal(n / 10).push(digit((n % 10) as int))
    }
}

/// Appends the decimal numeral of `n`.
pub fn push_decimal(out: &mut String, n: u64)
    ensures
        final(out)@ == old(out)@ + decimal(n as nat),
    decreases n,
{
    if n >= 10 {
        push_decimal(out, n / 10);
    }
    out.push((0x30 + (n % 10) as u8) as char);
    assert(out@ =~= old(out)@ + decimal(n as nat));
}

/// The number of digits of the numeral of `n`.
fn decimal_len(n: u64) -> (r: usize)
    ensures
        r == decimal(n as nat).len(),
        1 <= r <= 20,
        n < 10 ==> r == 1,
    decreases n,
{
    proof {
        lemma_decimal_len(n as nat, 20);
    }
    if n < 10 {
        1
    } else {
        1 + decimal_len(n / 10)
    }
}

pub open spec fn power_of_ten(k: nat) -> nat
    decreases k,
{
    if k == 0 {
        1
    } else {
        10 * power_of_ten((k - 1) as nat)
    }
}

/// A number below `10^k` has a numeral of at most `k` digits.
proof fn lemma_decimal_len(n: nat, k: nat)
    requires
        k >= 1,
        n <= u64::MAX,
        k < 20 ==> n < power_of_ten(k),
        k <= 20,
    ensures
        1 <= decimal(n).len() <= k,
    decreases k,
{
    reveal_with_fuel(power_of_ten, 21);
    if n >= 10 {
        assert(n / 10 < power_of_ten((k - 1) as nat));
        lemma_decimal_len(n / 10, (k - 1) as nat);
    }
}

/// `k` zeros.
pub open spec fn zeros(k: int) -> Seq<char> {
    Seq::new(k as nat, |i: int| '0')
}

/// The decimal numeral of `n`, filled up with leading zeros to at least `width` digits.
pub open spec fn padded(n: nat, width: int) -> Seq<char> {
    if decimal(n).len() < width {
        zeros(width - decimal(n).len()) + decimal(n)
    } else {
        decimal(n)
    }
}

/// Appends the decimal numeral of `n` with at least `width` digits.
pub fn push_padded(out: &mut String, n: u64, width: usize)
    ensures
        final(out)@ == old(out)@ + padded(n as nat, width as int),
{
    let len: usize = decimal_len(n);
    if len < width {
        let fill: usize = width - len;
        let mut i: usize = 0;
        assert(out@ =~= old(out)@ + zeros(0));
        while i < fill
            invariant
                i <= fill,
                out@ == old(out)@ + zeros(i as int),
            decreases fill - i,
        {
            out.push('0');
            i += 1;
            assert(out@ =~= old(out)@ + zeros(i as int));
        }
        push_decimal(out, n);
        assert(out@ =~= old(out)@ + padded(n as nat, width as int));
    } else {
        push_decimal(out, n);
    }
}

/// The hexadecimal digit `d`, in lower case.
pub open spec fn hex_lower(d: int) -> char {
    if d < 10 {
        (0x30 + d) as char
    } else {
        (0x57 + d) as char
    }
}

/// The hexadecimal digit `d`, in upper case.
pub open spec fn hex_upper(d: int) -> char {
    if d < 10 {
        (0x30 + d) as char
    } else {
        (0x37 + d) as char
    }
}

/// The two hexadecimal digits of a byte, in lower case.
pub open spec fn hex2_lower(b: u8) -> Seq<char> {
    seq![hex_lower(b as int / 16), hex_lower(b as int % 16)]
}

/// The two hexadecimal digits of a byte, in upper case.
pub open spec fn hex2_upper(b: u8) -> Seq<char> {
    seq![hex_upper(b as int / 16), hex_upper(b as int % 16)]
}

/// Appends the two digits of `b` in lower case.
pub fn push_hex2_lower(out: &mut String, b: u8)
    ensures
        final(out)@ == old(out)@ + hex2_lower(b),
{
    let high: u8 = b / 16;
    let low: u8 = b % 16;
    out.push(if high < 10 { (0x30 + high) as char } else { (0x57 + high) as char });
    out.push(if low < 10 { (0x30 + low) as char } else { (0x57 + low) as char });
    assert(out@ =~= old(out)@ + hex2_lower(b));
}

/// Appends the two digits of `b` in upper case.
pub fn push_hex2_upper(out: &mut String, b: u8)
    ensures
        final(out)@ == old(out)@ + hex2_upper(b),
{
    let high: u8 = b / 16;
    let low: u8 = b % 16;
    out.push(if high < 10 { (0x30 + high) as char } else { (0x37 + high) as char });
    out.push(if low < 10 { (0x30 + low) as char } else { (0x37 + low) as char });
    assert(out@ =~= old(out)@ + hex2_upper(b));
}

/// The characters with the Unicode property White_Space.
pub open spec fn white_space(c: char) -> bool {
    let u = c as u32;
    0x09 <= u <= 0x0D || u == 0x20 || u == 0x85 || u == 0xA0 || u == 0x1680 || 0x2000 <= u
        <= 0x200A || u == 0x2028 || u == 0x2029 || u == 0x202F || u == 0x205F || u == 0x3000
}

pub fn is_white_space(c: char) -> (r: bool)
    ensures
        r == white_space(c),
{
    let u: u32 = c as u32;
    (0x09 <= u && u <= 0x0D) || u == 0x20 || u == 0x85 || u == 0xA0 || u == 0x1680 || (0x2000 <= u
        && u <= 0x200A) || u == 0x2028 || u == 0x2029 || u == 0x202F || u == 0x205F || u == 0x3000
}

/// `s` without its leading white space.
pub open spec fn trim_start(s: Seq<char>) -> Seq<char>
    decreases s.len(),
{
    if s.len() > 0 && white_space(s[0]) {
        trim_start(s.skip(1))
    } else {
        s
    }
}

/// `s` without its trailing white space.
pub open spec fn trim_end(s: Seq<char>) -> Seq<char>
    decreases s.len(),
{
    if s.len() > 0 && white_space(s.last()) {
        trim_end(s.drop_last())
    } else {
        s
    }
}

/// `s` without leading and trailing white space.
pub open spec fn trimmed(s: Seq<char>) -> Seq<char> {
    trim_end(trim_start(s))
}

/// Removes leading and trailing white space.
pub fn trim(v: &[char]) -> (r: &[char])
    ensures
        r@ == trimmed(v@),
{
    let mut from: usize = 0;
    let mut to: usize = v.len();
    assert(v@.skip(0) =~= v@);
    while from < to && is_white_space(v[from])
        invariant
            from <= to == v@.len(),
            trim_start(v@) == trim_start(v@.skip(from as int)),
        decreases to - from,
    {
        assert(v@.skip(from as int).skip(1) =~= v@.skip(from + 1));
        from += 1;
    }
    assert(trim_start(v@) == v@.skip(from as int));
    assert(v@.skip(from as int) =~= v@.subrange(from as int, to as int));
    while to > from && is_white_space(v[to - 1])
        invariant
            from <= to <= v@.len(),
            trimmed(v@) == trim_end(v@.subrange(from as int, to as int)),
        decreases to - from,
    {
        assert(v@.subrange(from as int, to as int).drop_last() =~= v@.subrange(
            from as int,
            to - 1,
        ));
        to -= 1;
    }
    slice_subrange(v, from, to)
}

/// Whether `needle` stands in `hay` at `i`.
pub open spec fn occurs_at(hay: Seq<char>, needle: Seq<char>, i: int) -> bool {
    0 <= i && i + needle.len() <= hay.len() && hay.subrange(i, i + needle.len()) == needle
}

/// Where `needle` first stands in `hay`, from `i` on.
pub open spec fn find_from(hay: Seq<char>, needle: Seq<char>, i: int) -> Option<int>
    decreases hay.len() + 1 - i,
{
    if i < 0 || i + needle.len() > hay.len() {
        None
    } else if occurs_at(hay, needle, i) {
        Some(i)
    } else {
        find_from(hay, needle, i + 1)
    }
}

/// Whether `needle` stands anywhere in `hay`.
pub open spec fn contains_text(hay: Seq<char>, needle: Seq<char>) -> bool {
    find_from(hay, needle, 0) is Some
}

/// A search finds the first place: what it gives is one, none lies before it, and it fails only
/// where there is none.
pub proof fn law_find_from_is_first(hay: Seq<char>, needle: Seq<char>, i: int)
    requires
        0 <= i,
    ensures
        match find_from(hay, needle, i) {
            Some(k) => i <= k && occurs_at(hay, needle, k) && forall|j: int|
                i <= j < k ==> !occurs_at(hay, needle, j),
            None => forall|j: int| i <= j ==> !occurs_at(hay, needle, j),
        },
    decreases hay.len() + 1 - i,
{
    if i + needle.len() <= hay.len() && !occurs_at(hay, needle, i) {
        law_find_from_is_first(hay, needle, i + 1);
    }
}

/// Whether two runs of characters are equal.
pub fn chars_eq(a: &[char], b: &[char]) -> (r: bool)
    ensures
        r == (a@ == b@),
{
    if a.len() != b.len() {
        return false;
    }
    let mut i: usize = 0;
    while i < a.len()
        invariant
            i <= a@.len() == b@.len(),
            forall|k: int| 0 <= k < i ==> a@[k] == b@[k],
        decreases a@.len() - i,
    {
        if a[i] != b[i] {
            return false;
        }
        i += 1;
    }
    assert(a@ =~= b@);
    true
}

/// Finds `needle` in `hay`, from `start` on.
pub fn find(hay: &[char], needle: &[char], start: usize) -> (r: Option<usize>)
    ensures
        match find_from(hay@, needle@, start as int) {
            Some(k) => r matches Some(i) && i == k,
            None => r is None,
        },
{
    if start > hay.len() {
        return None;
    }
    let mut i: usize = start;
    while i <= hay.len() && needle.len() <= hay.len() - i
        invariant
            start <= i <= hay@.len() + 1,
            find_from(hay@, needle@, start as int) == find_from(hay@, needle@, i as int),
        decreases hay@.len() + 1 - i,
    {
        if chars_eq(vstd::slice::slice_subrange(hay, i, i + needle.len()), needle) {
            return Some(i);
        }
        proof {
            if needle@.len() == 0 {
                assert(hay@.subrange(i as int, i as int) =~= needle@);
            }
        }
        i += 1;
    }
    None
}

/// Whether `needle` stands anywhere in `hay`.
pub fn contains(hay: &str, needle: &str) -> (r: bool)
    ensures
        r == contains_text(hay@, needle@),
{
    let h: Vec<char> = chars_of(hay);
    let n: Vec<char> = chars_of(needle);
    find(h.as_slice(), n.as_slice(), 0).is_some()
}

/// Where `c` first stands in `s`.
pub open spec fn position(s: Seq<char>, c: char) -> Option<int>
    decreases s.len(),
{
    if s.len() == 0 {
        None
    } else if s[0] == c {
        Some(0)
    } else {
        match position(s.skip(1), c) {
            Some(k) => Some(k + 1),
            None => None,
        }
    }
}

/// Finds the first `c`.
pub fn find_char(v: &[char], c: char) -> (r: Option<usize>)
    ensures
        match position(v@, c) {
            Some(k) => r matches Some(i) && i == k && k < v@.len() && v@[k] == c,
            None => r is None,
        },
{
    let mut i: usize = 0;
    assert(v@.skip(0) =~= v@);
    while i < v.len()
        invariant
            i <= v@.len(),
            match position(v@.skip(i as int), c) {
                Some(k) => position(v@, c) == Some(k + i),
                None => position(v@, c) is None,
            },
        decreases v@.len() - i,
    {
        if v[i] == c {
            return Some(i);
        }
        assert(v@.skip(i as int).skip(1) =~= v@.skip(i + 1));
        i += 1;
    }
    None
}

/// Where `c` last stands in `s`.
pub open spec fn last_position(s: Seq<char>, c: char) -> Option<int>
    decreases s.len(),
{
    if s.len() == 0 {
        None
    } else if s.last() == c {
        Some(s.len() - 1)
    } else {
        last_position(s.drop_last(), c)
    }
}

/// Finds the last `c`.
pub fn find_last_char(v: &[char], c: char) -> (r: Option<usize>)
    ensures
        match last_position(v@, c) {
            Some(k) => r matches Some(i) && i == k && i < v@.len(),
            None => r is None,
        },
{
    let mut n: usize = v.len();
    assert(v@.take(n as int) =~= v@);
    while n > 0
        invariant
            n <= v@.len(),
            last_position(v@, c) == last_position(v@.take(n as int), c),
        decreases n,
    {
        if v[n - 1] == c {
            return Some(n - 1);
        }
        assert(v@.take(n as int).drop_last() =~= v@.take(n - 1));
        n -= 1;
    }
    None
}

/// The pieces of `s` between the places where `sep` stands, taken from the front.
pub open spec fn pieces(s: Seq<char>, sep: Seq<char>) -> Seq<Seq<char>>
    decreases s.len(),
{
    match find_from(s, sep, 0) {
        Some(i) => if 0 <= i && 0 < sep.len() && i + sep.len() <= s.len() {
            seq![s.take(i)] + pieces(s.skip(i + sep.len()), sep)
        } else {
            seq![s]
        },
        None => seq![s],
    }
}

/// What a list of character lists stands for.
pub open spec fn text_views(v: Seq<Vec<char>>) -> Seq<Seq<char>> {
    Seq::new(v.len(), |i: int| v[i]@)
}

/// Splits `v` at every `sep`.
pub fn split(v: &[char], sep: &[char]) -> (r: Vec<Vec<char>>)
    requires
        sep@.len() > 0,
    ensures
        text_views(r@) == pieces(v@, sep@),
{
    let mut out: Vec<Vec<char>> = Vec::new();
    let mut rest: &[char] = v;
    assert(text_views(out@) + pieces(v@, sep@) =~= pieces(v@, sep@));
    loop
        invariant
            sep@.len() > 0,
            text_views(out@) + pieces(rest@, sep@) == pieces(v@, sep@),
        decreases rest@.len(),
    {
        proof {
            law_find_from_is_first(rest@, sep@, 0);
        }
        let ghost done = text_views(out@);
        match find(rest, sep, 0) {
            Some(i) => {
                let total: usize = rest.len();
                let head: Vec<char> = slice_to_vec(slice_subrange(rest, 0, i));
                assert(head@ =~= rest@.take(i as int));
                out.push(head);
                let tail = slice_subrange(rest, i + sep.len(), total);
                proof {
                    assert(text_views(out@) =~= done.push(rest@.take(i as int)));
                    assert(tail@ =~= rest@.skip(i + sep@.len()));
                    assert(done + (seq![rest@.take(i as int)] + pieces(tail@, sep@)) =~= done.push(
                        rest@.take(i as int),
                    ) + pieces(tail@, sep@));
                }
                rest = tail;
            },
            None => {
                out.push(slice_to_vec(rest));
                assert(text_views(out@) =~= done + seq![rest@]);
                return out;
            },
        }
    }
}

/// The value of a run of decimal digits.
pub open spec fn digits_value(s: Seq<char>) -> nat
    decreases s.len(),
{
    if s.len() == 0 {
        0
    } else {
        digits_value(s.drop_last()) * 10 + (s.last() as int - 0x30) as nat
    }
}

pub open spec fn is_digit(c: char) -> bool {
    '0' <= c <= '9'
}

pub open spec fn all_digits(s: Seq<char>) -> bool {
    forall|i: int| 0 <= i < s.len() ==> is_digit(#[trigger] s[i])
}

/// The number that `s` denotes: an optional `+` and at least one digit, no more than `max`.
pub open spec fn unsigned_numeral(s: Seq<char>, max: nat) -> Option<nat> {
    let d = if s.len() > 0 && s[0] == '+' {
        s.skip(1)
    } else {
        s
    };
    if d.len() == 0 || !all_digits(d) || digits_value(d) > max {
        None
    } else {
        Some(digits_value(d))
    }
}

/// The numeral of a number is made of digits and reads back as that number.
pub proof fn law_decimal_reads_back(n: nat)
    ensures
        decimal(n).len() >= 1,
        all_digits(decimal(n)),
        digits_value(decimal(n)) == n,
    decreases n,
{
    if n < 10 {
        assert(decimal(n).drop_last() =~= Seq::empty());
        assert(digits_value(Seq::<char>::empty()) == 0);
    } else {
        law_decimal_reads_back(n / 10);
        assert(decimal(n).drop_last() =~= decimal(n / 10));
    }
}

/// The value of a prefix is no more than that of the whole.
pub proof fn lemma_prefix_value(s: Seq<char>, n: int)
    requires
        0 <= n <= s.len(),
        all_digits(s),
    ensures
        digits_value(s.take(n)) <= digits_value(s),
    decreases s.len() - n,
{
    if n < s.len() {
        lemma_prefix_value(s, n + 1);
        assert(s.take(n + 1).drop_last() =~= s.take(n));
        assert(s.take(n + 1).last() == s[n]);
    } else {
        assert(s.take(n) =~= s);
    }
}

/// Reads an unsigned numeral of at most `max`.
pub fn parse_unsigned(v: &[char], max: u64) -> (r: Option<u64>)
    ensures
        match unsigned_numeral(v@, max as nat) {
            Some(n) => r matches Some(x) && x == n,
            None => r is None,
        },
{
    let start: usize = if v.len() > 0 && v[0] == '+' {
        1
    } else {
        0
    };
    let ghost d = if v@.len() > 0 && v@[0] == '+' {
        v@.skip(1)
    } else {
        v@
    };
    assert(d =~= v@.skip(start as int));
    if start == v.len() {
        return None;
    }
    let mut value: u64 = 0;
    let mut i: usize = start;
    assert(d.take(0) =~= Seq::<char>::empty());
    while i < v.len()
        invariant
            start <= i <= v@.len(),
            start < v@.len(),
            d == v@.skip(start as int),
            unsigned_numeral(v@, max as nat) == (if d.len() == 0 || !all_digits(d) || digits_value(d)
                > max as nat {
                None::<nat>
            } else {
                Some(digits_value(d))
            }),
            forall|k: int| 0 <= k < i - start ==> is_digit(#[trigger] d[k]),
            value == digits_value(d.take(i - start)),
            value <= max,
        decreases v@.len() - i,
    {
        let c: char = v[i];
        assert(d[i - start] == c);
        if c < '0' || c > '9' {
            return None;
        }
        let add: u64 = (c as u32 - 0x30) as u64;
        assert(d.take(i + 1 - start).drop_last() =~= d.take(i - start));
        assert(d.take(i + 1 - start).last() == c);
        if add > max || value > (max - add) / 10 {
            proof {
                if all_digits(d) {
                    lemma_prefix_value(d, i + 1 - start);
                }
            }
            return None;
        }
        value = value * 10 + add;
        i += 1;
    }
    assert(d.take(i - start) =~= d);
    Some(value)
}

/// `c` in lower case, if it is an ASCII letter.
pub open spec fn lower(c: char) -> char {
    if 'A' <= c <= 'Z' {
        (c as int + 0x20) as char
    } else {
        c
    }
}

/// The ASCII letter `c` as a capital, and any other character itself.
pub open spec fn upper(c: char) -> char {
    if 'a' <= c <= 'z' {
        (c as u8 - 0x20) as char
    } else {
        c
    }
}

/// `s` with its ASCII letters as capitals.
pub open spec fn uppered(s: Seq<char>) -> Seq<char> {
    s.map_values(|c: char| upper(c))
}

/// `s` with its ASCII letters in lower case.
pub open spec fn lowered(s: Seq<char>) -> Seq<char> {
    s.map_values(|c: char| lower(c))
}

pub fn to_lower(c: char) -> (r: char)
    ensures
        r == lower(c),
{
    if 'A' <= c && c <= 'Z' {
        (c as u8 + 0x20) as char
    } else {
        c
    }
}

/// Whether two runs of characters differ at most in the case of ASCII letters.
pub fn eq_ignore_case(a: &[char], b: &[char]) -> (r: bool)
    ensures
        r == (lowered(a@) == lowered(b@)),
{
    if a.len() != b.len() {
        assert(lowered(a@).len() != lowered(b@).len());
        return false;
    }
    let mut i: usize = 0;
    while i < a.len()
        invariant
            i <= a@.len() == b@.len(),
            forall|k: int| 0 <= k < i ==> lower(a@[k]) == lower(b@[k]),
        decreases a@.len() - i,
    {
        if to_lower(a[i]) != to_lower(b[i]) {
            assert(lowered(a@)[i as int] != lowered(b@)[i as int]);
            return false;
        }
        i += 1;
    }
    assert(lowered(a@) =~= lowered(b@));
    true
}

} // verus!
