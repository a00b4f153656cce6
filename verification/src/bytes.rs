//! Byte-string helpers shared by the wire-format modules: big-endian integers and copies of
//! sub-slices, stated over mathematical integers and sequences.

use vstd::prelude::*;

verus! {

/// The integer whose two base-256 digits, most significant first, are `a` and `b`.
pub open spec fn be16(a: u8, b: u8) -> int {
    a * 0x100 + b
}

/// The integer whose three base-256 digits, most significant first, are `a`, `b` and `c`.
pub open spec fn be24(a: u8, b: u8, c: u8) -> int {
    a * 0x1_0000 + b * 0x100 + c
}

/// The integer whose four base-256 digits, most significant first, are `a`, `b`, `c` and `d`.
pub open spec fn be32(a: u8, b: u8, c: u8, d: u8) -> int {
    a * 0x100_0000 + b * 0x1_0000 + c * 0x100 + d
}

/// The contents of a vector of byte vectors.
pub open spec fn nested(v: Seq<Vec<u8>>) -> Seq<Seq<u8>> {
    v.map_values(|b: Vec<u8>| b@)
}

/// The big-endian encoding of `x` (below 2^16) in two bytes.
pub open spec fn be16_bytes(x: int) -> Seq<u8> {
    seq![(x / 0x100) as u8, (x % 0x100) as u8]
}

/// The big-endian encoding of `x` (below 2^32) in four bytes.
pub open spec fn be32_bytes(x: int) -> Seq<u8> {
    seq![
        (x / 0x100_0000) as u8,
        ((x / 0x1_0000) % 0x100) as u8,
        ((x / 0x100) % 0x100) as u8,
        (x % 0x100) as u8,
    ]
}

/// Reading back what `be32_bytes` wrote gives the integer again.
pub proof fn lemma_be32_bytes_read_back(x: int)
    requires
        0 <= x <= u32::MAX,
    ensures
        be32_bytes(x).len() == 4,
        ({
            let b = be32_bytes(x);
            be32(b[0], b[1], b[2], b[3]) == x
        }),
{
}

/// Reading back what `be16_bytes` wrote gives the integer again.
pub proof fn lemma_be16_bytes_read_back(x: int)
    requires
        0 <= x <= u16::MAX,
    ensures
        be16_bytes(x).len() == 2,
        ({
            let b = be16_bytes(x);
            be16(b[0], b[1]) == x
        }),
{
}

pub fn read_be16(a: u8, b: u8) -> (r: u16)
    ensures
        r == be16(a, b),
{
    a as u16 * 0x100 + b as u16
}

pub fn read_be24(a: u8, b: u8, c: u8) -> (r: u32)
    ensures
        r == be24(a, b, c),
{
    a as u32 * 0x1_0000 + b as u32 * 0x100 + c as u32
}

pub fn read_be32(a: u8, b: u8, c: u8, d: u8) -> (r: u32)
    ensures
        r == be32(a, b, c, d),
{
    a as u32 * 0x100_0000 + b as u32 * 0x1_0000 + c as u32 * 0x100 + d as u32
}

/// Appends `extra` to `out`.
pub fn append_bytes(out: &mut Vec<u8>, extra: &[u8])
    ensures
        final(out)@ == old(out)@ + extra@,
{
    out.extend_from_slice(extra);
    assert(out@ =~= old(out)@ + extra@);
}

/// Appends the big-endian encoding of `x`.
pub fn append_be16(out: &mut Vec<u8>, x: u16)
    ensures
        final(out)@ == old(out)@ + be16_bytes(x as int),
{
    out.push((x / 0x100) as u8);
    out.push((x % 0x100) as u8);
    assert(out@ =~= old(out)@ + be16_bytes(x as int));
}

/// Appends the big-endian encoding of `x`.
pub fn append_be32(out: &mut Vec<u8>, x: u32)
    ensures
        final(out)@ == old(out)@ + be32_bytes(x as int),
{
    out.push((x / 0x100_0000) as u8);
    out.push(((x / 0x1_0000) % 0x100) as u8);
    out.push(((x / 0x100) % 0x100) as u8);
    out.push((x % 0x100) as u8);
    assert(out@ =~= old(out)@ + be32_bytes(x as int));
}

/// Copies `s[from..to]`.
pub fn copy_range(s: &[u8], from: usize, to: usize) -> (r: Vec<u8>)
    requires
        from <= to <= s@.len(),
    ensures
        r@ == s@.subrange(from as int, to as int),
{
    vstd::slice::slice_to_vec(vstd::slice::slice_subrange(s, from, to))
}

/// Whether the two byte strings are equal.
pub fn bytes_eq(a: &[u8], b: &[u8]) -> (r: bool)
    ensures
        r == (a@ == b@),
{
    if a.len() != b.len() {
        return false;
    }
    let mut i: usize = 0;
    while i < a.len()
        invariant
            i <= a@.len() == b@.len(),
            forall|k: int| 0 <= k < i ==> a@[k] == b@[k],
        decreases a@.len() - i,
    {
        if a[i] != b[i] {
            return false;
        }
        i += 1;
    }
    assert(a@ =~= b@);
    true
}

/// Copies a vector of byte vectors.
pub fn copy_nested(v: &Vec<Vec<u8>>) -> (r: Vec<Vec<u8>>)
    ensures
        nested(r@) == nested(v@),
{
    let mut out: Vec<Vec<u8>> = Vec::new();
    let mut i: usize = 0;
    while i < v.len()
        invariant
            i <= v@.len(),
            out@.len() == i,
            forall|k: int| 0 <= k < i ==> out@[k]@ == v@[k]@,
        decreases v@.len() - i,
    {
        out.push(copy_range(v[i].as_slice(), 0, v[i].len()));
        assert(out@[i as int]@ =~= v@[i as int]@);
        i += 1;
    }
    assert(nested(out@) =~= nested(v@));
    out
}

} // verus!
