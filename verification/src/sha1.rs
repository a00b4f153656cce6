//! SHA-1 (FIPS 180-4), which the WebSocket opening handshake needs.

use crate::bytes::{append_bytes, append_be32, be32, be32_bytes, read_be32};
use vstd::prelude::*;

verus! {

/// The five working variables.
#[derive(Clone, Copy, PartialEq, Eq, Structural)]
pub struct Sha1State {
    pub a: u32,
    pub b: u32,
    pub c: u32,
    pub d: u32,
    pub e: u32,
}

pub open spec fn initial_state() -> Sha1State {
    Sha1State { a: 0x67452301, b: 0xEFCDAB89, c: 0x98BADCFE, d: 0x10325476, e: 0xC3D2E1F0 }
}

/// Addition modulo 2^32.
pub open spec fn plus(x: u32, y: u32) -> u32 {
    ((x + y) % 0x1_0000_0000) as u32
}

/// Left rotation by `n` bits, `n` between 1 and 31.
pub open spec fn rotl(x: u32, n: u32) -> u32 {
    (x << n) | (x >> ((32 - n) as u32))
}

/// The function of round `t`.
pub open spec fn round_function(t: int, b: u32, c: u32, d: u32) -> u32 {
    if t < 20 {
        (b & c) | ((!b) & d)
    } else if t < 40 {
        b ^ c ^ d
    } else if t < 60 {
        (b & c) | (b & d) | (c & d)
    } else {
        b ^ c ^ d
    }
}

/// The constant of round `t`.
pub open spec fn round_constant(t: int) -> u32 {
    if t < 20 {
        0x5A827999
    } else if t < 40 {
        0x6ED9EBA1
    } else if t < 60 {
        0x8F1BBCDC
    } else {
        0xCA62C1D6
    }
}

/// Word `t` of the message schedule of a 64-byte block.
pub open spec fn schedule(block: Seq<u8>, t: int) -> u32
    decreases t,
{
    if t < 16 {
        be32(block[4 * t], block[4 * t + 1], block[4 * t + 2], block[4 * t + 3]) as u32
    } else {
        rotl(
            schedule(block, t - 3) ^ schedule(block, t - 8) ^ schedule(block, t - 14) ^ schedule(
                block,
                t - 16,
            ),
            1,
        )
    }
}

/// Round `t` with schedule word `w`.
pub open spec fn round(s: Sha1State, t: int, w: u32) -> Sha1State {
    Sha1State {
        a: plus(
            plus(plus(plus(rotl(s.a, 5), round_function(t, s.b, s.c, s.d)), s.e), round_constant(t)),
            w,
        ),
        b: s.a,
        c: rotl(s.b, 30),
        d: s.c,
        e: s.d,
    }
}

/// The state after the first `t` rounds on a block.
pub open spec fn rounds(s: Sha1State, block: Seq<u8>, t: int) -> Sha1State
    decreases t,
{
    if t <= 0 {
        s
    } else {
        round(rounds(s, block, t - 1), t - 1, schedule(block, t - 1))
    }
}

/// The hash value after one more block.
pub open spec fn compress(h: Sha1State, block: Seq<u8>) -> Sha1State {
    let r = rounds(h, block, 80);
    Sha1State {
        a: plus(h.a, r.a),
        b: plus(h.b, r.b),
        c: plus(h.c, r.c),
        d: plus(h.d, r.d),
        e: plus(h.e, r.e),
    }
}

/// The hash value after the first `n` blocks of a padded message.
pub open spec fn hash_blocks(msg: Seq<u8>, n: int) -> Sha1State
    decreases n,
{
    if n <= 0 {
        initial_state()
    } else {
        compress(hash_blocks(msg, n - 1), msg.subrange(64 * (n - 1), 64 * n))
    }
}

/// How many zero bytes the padding holds, so that 8 bytes are left in the last block.
pub open spec fn zero_count(len: int) -> int {
    (119 - len % 64) % 64
}

/// The message followed by the byte 0x80, zeros and its length in bits as 64 bits.
pub open spec fn padded_message(data: Seq<u8>) -> Seq<u8> {
    let bits: int = (data.len() as int * 8) % 0x1_0000_0000_0000_0000;
    data.push(0x80) + Seq::new(zero_count(data.len() as int) as nat, |i: int| 0u8) + be32_bytes(
        bits / 0x1_0000_0000,
    ) + be32_bytes(bits % 0x1_0000_0000)
}

/// The digest as bytes.
pub open spec fn state_bytes(s: Sha1State) -> Seq<u8> {
    be32_bytes(s.a as int) + be32_bytes(s.b as int) + be32_bytes(s.c as int) + be32_bytes(
        s.d as int,
    ) + be32_bytes(s.e as int)
}

/// The SHA-1 digest of `data`.
pub open spec fn digest(data: Seq<u8>) -> Seq<u8> {
    let msg = padded_message(data);
    state_bytes(hash_blocks(msg, msg.len() as int / 64))
}

fn add32(x: u32, y: u32) -> (r: u32)
    ensures
        r == plus(x, y),
{
    ((x as u64 + y as u64) % 0x1_0000_0000) as u32
}

fn rotate_left(x: u32, n: u32) -> (r: u32)
    requires
        0 < n < 32,
    ensures
        r == rotl(x, n),
{
    (x << n) | (x >> (32 - n))
}

/// One round.
fn do_round(s: Sha1State, t: usize, w: u32) -> (r: Sha1State)
    requires
        t < 80,
    ensures
        r == round(s, t as int, w),
{
    let f: u32 = if t < 20 {
        (s.b & s.c) | ((!s.b) & s.d)
    } else if t < 40 {
        s.b ^ s.c ^ s.d
    } else if t < 60 {
        (s.b & s.c) | (s.b & s.d) | (s.c & s.d)
    } else {
        s.b ^ s.c ^ s.d
    };
    let k: u32 = if t < 20 {
        0x5A827999
    } else if t < 40 {
        0x6ED9EBA1
    } else if t < 60 {
        0x8F1BBCDC
    } else {
        0xCA62C1D6
    };
    Sha1State {
        a: add32(add32(add32(add32(rotate_left(s.a, 5), f), s.e), k), w),
        b: s.a,
        c: rotate_left(s.b, 30),
        d: s.c,
        e: s.d,
    }
}

/// Takes in the block of `msg` at `from`.
fn do_block(h: Sha1State, msg: &[u8], from: usize) -> (r: Sha1State)
    requires
        from + 64 <= msg@.len(),
    ensures
        r == compress(h, msg@.subrange(from as int, from + 64)),
{
    let block: &[u8] = vstd::slice::slice_subrange(
        vstd::slice::slice_subrange(msg, from, msg.len()),
        0,
        64,
    );
    assert(block@ =~= msg@.subrange(from as int, from + 64));
    let mut w: Vec<u32> = Vec::new();
    let mut t: usize = 0;
    while t < 80
        invariant
            t <= 80,
            w@.len() == t,
            block@.len() == 64,
            forall|k: int| 0 <= k < t ==> #[trigger] w@[k] == schedule(block@, k),
        decreases 80 - t,
    {
        if t < 16 {
            w.push(read_be32(block[4 * t], block[4 * t + 1], block[4 * t + 2], block[4 * t + 3]));
        } else {
            w.push(rotate_left(w[t - 3] ^ w[t - 8] ^ w[t - 14] ^ w[t - 16], 1));
        }
        t += 1;
    }
    let mut s: Sha1State = h;
    let mut i: usize = 0;
    while i < 80
        invariant
            i <= 80,
            w@.len() == 80,
            forall|k: int| 0 <= k < 80 ==> #[trigger] w@[k] == schedule(block@, k),
            s == rounds(h, block@, i as int),
        decreases 80 - i,
    {
        s = do_round(s, i, w[i]);
        i += 1;
    }
    Sha1State {
        a: add32(h.a, s.a),
        b: add32(h.b, s.b),
        c: add32(h.c, s.c),
        d: add32(h.d, s.d),
        e: add32(h.e, s.e),
    }
}

/// Pads the message.
fn pad(data: &[u8]) -> (r: Vec<u8>)
    ensures
        r@ == padded_message(data@),
{
    let bits: u64 = ((data.len() as u128 * 8) % 0x1_0000_0000_0000_0000) as u64;
    let fill: usize = (119 - data.len() % 64) % 64;
    let mut msg: Vec<u8> = Vec::new();
    append_bytes(&mut msg, data);
    msg.push(0x80);
    let ghost head = data@.push(0x80);
    assert(msg@ =~= head);
    let mut i: usize = 0;
    assert(msg@ =~= head + Seq::new(0, |i: int| 0u8));
    while i < fill
        invariant
            i <= fill,
            msg@ == head + Seq::new(i as nat, |i: int| 0u8),
        decreases fill - i,
    {
        msg.push(0);
        i += 1;
        assert(msg@ =~= head + Seq::new(i as nat, |i: int| 0u8));
    }
    append_be32(&mut msg, (bits / 0x1_0000_0000) as u32);
    append_be32(&mut msg, (bits % 0x1_0000_0000) as u32);
    msg
}

/// The SHA-1 digest of `data`, 20 bytes.
pub fn sha1(data: &[u8]) -> (r: Vec<u8>)
    ensures
        r@ == digest(data@),
        r@.len() == 20,
{
    let msg: Vec<u8> = pad(data);
    let total: usize = msg.len();
    let count: usize = total / 64;
    let mut h: Sha1State = Sha1State {
        a: 0x67452301,
        b: 0xEFCDAB89,
        c: 0x98BADCFE,
        d: 0x10325476,
        e: 0xC3D2E1F0,
    };
    let mut n: usize = 0;
    while n < count
        invariant
            n <= count,
            count == total / 64,
            total == msg@.len(),
            h == hash_blocks(msg@, n as int),
        decreases count - n,
    {
        h = do_block(h, msg.as_slice(), n * 64);
        n += 1;
        assert(64 * (n - 1) == (n - 1) * 64 && 64 * n == (n - 1) * 64 + 64);
    }
    let mut out: Vec<u8> = Vec::new();
    append_be32(&mut out, h.a);
    append_be32(&mut out, h.b);
    append_be32(&mut out, h.c);
    append_be32(&mut out, h.d);
    append_be32(&mut out, h.e);
    assert(out@ =~= state_bytes(h));
    out
}

/// The padded message is a whole number of blocks.
pub proof fn law_padding_fills_blocks(data: Seq<u8>)
    ensures
        padded_message(data).len() % 64 == 0,
        padded_message(data).take(data.len() as int) == data,
{
    let n = data.len() as int;
    let k = zero_count(n);
    assert((n + 9 + k) % 64 == 0) by {
        assert(n == 64 * (n / 64) + n % 64);
        if n % 64 <= 55 {
            assert(k == 55 - n % 64);
        } else {
            assert(k == 119 - n % 64);
        }
    }
    assert(padded_message(data).len() == n + 9 + k);
    assert(padded_message(data).take(n) =~= data);
}

} // verus!
