//! Base64 with padding (RFC 4648, section 4).

use vstd::prelude::*;

verus! {

/// The character of the 6-bit value `v`.
pub open spec fn sextet_char(v: int) -> char {
    if v < 26 {
        (0x41 + v) as char
    } else if v < 52 {
        (0x61 + (v - 26)) as char
    } else if v < 62 {
        (0x30 + (v - 52)) as char
    } else if v == 62 {
        '+'
    } else {
        '/'
    }
}

/// The four characters of three bytes.
pub open spec fn quartet(a: u8, b: u8, c: u8) -> Seq<char> {
    seq![
        sextet_char(a as int / 4),
        sextet_char(a as int % 4 * 16 + b as int / 16),
        sextet_char(b as int % 16 * 4 + c as int / 64),
        sextet_char(c as int % 64),
    ]
}

/// The encoding of `s`: four characters for every three bytes, the last group padded with `=`.
pub open spec fn base64(s: Seq<u8>) -> Seq<char>
    decreases s.len(),
{
    if s.len() == 0 {
        Seq::empty()
    } else if s.len() == 1 {
        quartet(s[0], 0, 0).take(2) + seq!['=', '=']
    } else if s.len() == 2 {
        quartet(s[0], s[1], 0).take(3) + seq!['=']
    } else {
        quartet(s[0], s[1], s[2]) + base64(s.skip(3))
    }
}

fn char_from_alphabet(v: u8) -> (r: char)
    requires
        v < 64,
    ensures
        r == sextet_char(v as int),
{
    if v < 26 {
        (0x41 + v) as char
    } else if v < 52 {
        (0x61 + (v - 26)) as char
    } else if v < 62 {
        (0x30 + (v - 52)) as char
    } else if v == 62 {
        '+'
    } else {
        '/'
    }
}

/// Appends the four characters of three bytes.
fn push_base64_quartet(out: &mut String, a: u8, b: u8, c: u8)
    ensures
        final(out)@ == old(out)@ + quartet(a, b, c),
{
    out.push(char_from_alphabet(a / 4));
    out.push(char_from_alphabet(a % 4 * 16 + b / 16));
    out.push(char_from_alphabet(b % 16 * 4 + c / 64));
    out.push(char_from_alphabet(c % 64));
    assert(out@ =~= old(out)@ + quartet(a, b, c));
}

/// Encodes `input`.
pub fn base64_encode(input: &[u8]) -> (r: String)
    ensures
        r@ == base64(input@),
{
    let mut out: String = String::new();
    let mut i: usize = 0;
    assert(input@.skip(0) =~= input@);
    assert(out@ + base64(input@) =~= base64(input@));
    while input.len() - i >= 3
        invariant
            i <= input@.len(),
            out@ + base64(input@.skip(i as int)) == base64(input@),
        decreases input@.len() - i,
    {
        let ghost rest = input@.skip(i as int);
        let ghost before = out@;
        push_base64_quartet(&mut out, input[i], input[i + 1], input[i + 2]);
        assert(input@.skip(i + 3) =~= rest.skip(3));
        assert(before + base64(rest) =~= out@ + base64(rest.skip(3)));
        i += 3;
    }
    let ghost rest = input@.skip(i as int);
    let remainder: usize = input.len() - i;
    if remainder == 1 {
        let a: u8 = input[i];
        assert(rest[0] == a);
        let ghost before = out@;
        out.push(char_from_alphabet(a / 4));
        out.push(char_from_alphabet(a % 4 * 16));
        out.push('=');
        out.push('=');
        assert(out@ =~= before + base64(rest));
    } else if remainder == 2 {
        let a: u8 = input[i];
        let b: u8 = input[i + 1];
        assert(rest[0] == a && rest[1] == b);
        let ghost before = out@;
        out.push(char_from_alphabet(a / 4));
        out.push(char_from_alphabet(a % 4 * 16 + b / 16));
        out.push(char_from_alphabet(b % 16 * 4));
        out.push('=');
        assert(out@ =~= before + base64(rest));
    } else {
        assert(out@ + base64(rest) =~= out@);
    }
    out
}

/// The 6-bit value of a character of the alphabet.
pub open spec fn sextet_value(c: char) -> int {
    if 'A' <= c <= 'Z' {
        c as int - 0x41
    } else if 'a' <= c <= 'z' {
        c as int - 0x61 + 26
    } else if '0' <= c <= '9' {
        c as int - 0x30 + 52
    } else if c == '+' {
        62
    } else {
        63
    }
}

/// The bytes that padded Base64 text stands for.
pub open spec fn decoded(t: Seq<char>) -> Seq<u8>
    decreases t.len(),
{
    if t.len() < 4 {
        Seq::empty()
    } else {
        let v0 = sextet_value(t[0]);
        let v1 = sextet_value(t[1]);
        let v2 = sextet_value(t[2]);
        let v3 = sextet_value(t[3]);
        let first = (v0 * 4 + v1 / 16) as u8;
        let second = (v1 % 16 * 16 + v2 / 4) as u8;
        let third = (v2 % 4 * 64 + v3) as u8;
        if t[2] == '=' {
            seq![first]
        } else if t[3] == '=' {
            seq![first, second]
        } else {
            seq![first, second, third] + decoded(t.skip(4))
        }
    }
}

/// Decoding undoes encoding, so that no two byte strings have the same text.
pub proof fn law_decoding_undoes_encoding(s: Seq<u8>)
    ensures
        decoded(base64(s)) == s,
    decreases s.len(),
{
    let t = base64(s);
    if s.len() == 0 {
        assert(decoded(t) =~= s);
    } else if s.len() == 1 {
        assert(decoded(t) =~= s);
    } else if s.len() == 2 {
        assert(decoded(t) =~= s);
    } else {
        law_decoding_undoes_encoding(s.skip(3));
        assert(t.skip(4) =~= base64(s.skip(3)));
        assert(s =~= seq![s[0], s[1], s[2]] + s.skip(3));
    }
}

/// The text takes four characters for every three bytes, the last group rounded up.
pub proof fn law_encoded_length(s: Seq<u8>)
    ensures
        base64(s).len() == (s.len() + 2) / 3 * 4,
    decreases s.len(),
{
    if s.len() > 2 {
        law_encoded_length(s.skip(3));
    }
}

} // verus!
