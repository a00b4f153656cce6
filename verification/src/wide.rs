//! UTF-16 with a NUL at its end, as Windows takes its texts.

use crate::text::{char_from, chars_of};
use vstd::prelude::*;
use vstd::utf8::{char_is_scalar, char_u32_cast, is_scalar};

verus! {

/// The UTF-16 units of a character.
pub open spec fn units(c: char) -> Seq<u16> {
    let v = c as u32;
    if v < 0x10000 {
        seq![v as u16]
    } else {
        seq![(0xD800 + (v - 0x10000) / 0x400) as u16, (0xDC00 + (v - 0x10000) % 0x400) as u16]
    }
}

/// A text in UTF-16.
pub open spec fn utf16(s: Seq<char>) -> Seq<u16>
    decreases s.len(),
{
    if s.len() == 0 {
        Seq::empty()
    } else {
        utf16(s.drop_last()) + units(s.last())
    }
}

/// Encodes a text, with a NUL behind it.
pub fn to_wide(s: &str) -> (r: Vec<u16>)
    ensures
        r@ == utf16(s@).push(0),
{
    let chars = chars_of(s);
    let mut out: Vec<u16> = Vec::new();
    let mut i: usize = 0;
    assert(s@.take(0) =~= Seq::empty());
    while i < chars.len()
        invariant
            i <= chars@.len(),
            chars@ == s@,
            out@ == utf16(s@.take(i as int)),
        decreases chars@.len() - i,
    {
        let v: u32 = chars[i] as u32;
        let ghost before = out@;
        if v < 0x10000 {
            out.push(v as u16);
        } else {
            let rest: u32 = v - 0x10000;
            out.push((0xD800 + rest / 0x400) as u16);
            out.push((0xDC00 + rest % 0x400) as u16);
        }
        proof {
            assert(s@.take(i + 1).drop_last() =~= s@.take(i as int));
            assert(s@.take(i + 1).last() == chars@[i as int]);
            assert(out@ =~= before + units(chars@[i as int]));
        }
        i += 1;
    }
    assert(s@.take(s@.len() as int) =~= s@);
    out.push(0);
    out
}

pub open spec fn is_high(u: u16) -> bool {
    0xD800 <= u <= 0xDBFF
}

pub open spec fn is_low(u: u16) -> bool {
    0xDC00 <= u <= 0xDFFF
}

/// Whether the units begin with the two halves of a character.
pub open spec fn starts_with_pair(w: Seq<u16>) -> bool {
    w.len() >= 2 && is_high(w[0]) && is_low(w[1])
}

/// The number of the character that two halves make.
pub open spec fn pair_code(high: u16, low: u16) -> u32 {
    (0x10000 + (high - 0xD800) * 0x400 + (low - 0xDC00)) as u32
}

/// The text of UTF-16 units; a half without its other half is replaced.
pub open spec fn utf16_text(w: Seq<u16>) -> Seq<char>
    decreases w.len(),
{
    if w.len() == 0 {
        Seq::empty()
    } else if starts_with_pair(w) {
        seq![pair_code(w[0], w[1]) as char] + utf16_text(w.skip(2))
    } else if is_high(w[0]) || is_low(w[0]) {
        seq!['\u{FFFD}'] + utf16_text(w.skip(1))
    } else {
        seq![(w[0] as u32) as char] + utf16_text(w.skip(1))
    }
}

/// Units without the NULs at their end.
pub open spec fn without_nuls(w: Seq<u16>) -> Seq<u16>
    decreases w.len(),
{
    if w.len() > 0 && w.last() == 0 {
        without_nuls(w.drop_last())
    } else {
        w
    }
}

/// Decodes a text, whose end may be marked by NULs.
pub fn wide_to_string(wide: &[u16]) -> (r: String)
    ensures
        r@ == utf16_text(without_nuls(wide@)),
{
    let mut end: usize = wide.len();
    assert(wide@.take(end as int) =~= wide@);
    while end > 0 && wide[end - 1] == 0
        invariant
            end <= wide@.len(),
            without_nuls(wide@) == without_nuls(wide@.take(end as int)),
        decreases end,
    {
        assert(wide@.take(end as int).drop_last() =~= wide@.take(end - 1));
        end -= 1;
    }
    let ghost w = wide@.take(end as int);
    assert(without_nuls(wide@) == w);
    let mut out = String::new();
    let mut i: usize = 0;
    assert(w.skip(0) =~= w);
    assert(out@ + utf16_text(w) =~= utf16_text(w));
    while i < end
        invariant
            i <= end <= wide@.len(),
            w == wide@.take(end as int),
            out@ + utf16_text(w.skip(i as int)) == utf16_text(w),
        decreases end - i,
    {
        let first: u16 = wide[i];
        let ghost rest = w.skip(i as int);
        let ghost before = out@;
        if 0xD800 <= first && first <= 0xDBFF && end - i >= 2 && 0xDC00 <= wide[i + 1] && wide[i + 1] <= 0xDFFF {
            let code: u32 = 0x10000 + (first as u32 - 0xD800) * 0x400 + (wide[i + 1] as u32 - 0xDC00);
            match char_from(code) {
                Some(c) => {
                    out.push(c);
                    proof {
                        char_u32_cast(c, code);
                    }
                    assert(rest.skip(2) =~= w.skip(i + 2));
                    assert(out@ + utf16_text(w.skip(i + 2)) =~= before + utf16_text(rest));
                },
                None => {},
            }
            i += 2;
        } else {
            let c: char = match char_from(first as u32) {
                Some(c) => c,
                None => '\u{FFFD}',
            };
            out.push(c);
            proof {
                if is_scalar(first as u32) {
                    char_u32_cast(c, first as u32);
                }
            }
            assert(rest.skip(1) =~= w.skip(i + 1));
            assert(out@ + utf16_text(w.skip(i + 1)) =~= before + utf16_text(rest));
            i += 1;
        }
    }
    assert(w.skip(end as int) =~= Seq::empty());
    assert(out@ =~= utf16_text(w));
    out
}

/// Decoding goes through what was encoded one character at a time.
proof fn lemma_text_of_appended(s: Seq<char>, rest: Seq<u16>)
    ensures
        utf16_text(utf16(s) + rest) == s + utf16_text(rest),
    decreases s.len(),
{
    if s.len() == 0 {
        assert(utf16(s) + rest =~= rest);
        assert(s + utf16_text(rest) =~= utf16_text(rest));
    } else {
        let c = s.last();
        let tail = units(c) + rest;
        assert(utf16(s) + rest =~= utf16(s.drop_last()) + tail);
        lemma_text_of_appended(s.drop_last(), tail);
        char_is_scalar(c);
        char_u32_cast(c, c as u32);
        if (c as u32) < 0x10000 {
            assert(tail.skip(1) =~= rest);
            assert(utf16_text(tail) =~= seq![c] + utf16_text(rest));
        } else {
            assert(tail.skip(2) =~= rest);
            assert(pair_code(tail[0], tail[1]) == c as u32);
            assert(utf16_text(tail) =~= seq![c] + utf16_text(rest));
        }
        assert(s.drop_last() + (seq![c] + utf16_text(rest)) =~= s + utf16_text(rest));
    }
}

/// What is encoded decodes to the same text, unless it ends with NULs of its own.
pub proof fn law_decoding_undoes_encoding(s: Seq<char>)
    requires
        s.len() == 0 || s.last() != '\0',
    ensures
        utf16_text(without_nuls(utf16(s).push(0))) == s,
{
    let w = utf16(s);
    assert(w.push(0).drop_last() =~= w);
    if s.len() > 0 {
        let u = units(s.last());
        char_is_scalar(s.last());
        char_u32_cast(s.last(), s.last() as u32);
        assert(w.last() == u.last());
        assert(u.last() != 0);
    }
    assert(without_nuls(w) == w);
    lemma_text_of_appended(s, Seq::empty());
    assert(w + Seq::<u16>::empty() =~= w);
    assert(s + Seq::<char>::empty() =~= s);
}

} // verus!
