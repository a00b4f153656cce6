//! IEEE 754 numbers by their bit patterns. Cameras send frame sizes and rates as binary64; the proxy
//! turns them into integers and into binary32 with integer arithmetic alone.

use vstd::arithmetic::power2::{
    lemma2_to64, lemma2_to64_rest, lemma_pow2_pos, lemma_pow2_strictly_increases, lemma_pow2_unfold, pow2,
};
use vstd::prelude::*;

verus! {

/// A binary32 number, held as its bit pattern.
#[derive(Debug, Clone, Copy, PartialEq, Eq, Structural)]
pub struct Binary32 {
    pub bits: u32,
}

/// Sign bit of a binary64 pattern.
pub open spec fn negative64(bits: u64) -> bool {
    bits >= 0x8000_0000_0000_0000
}

/// Biased exponent of a binary64 pattern.
pub open spec fn exponent64(bits: u64) -> int {
    (bits / 0x10_0000_0000_0000) as int % 0x800
}

/// Fraction field of a binary64 pattern.
pub open spec fn fraction64(bits: u64) -> int {
    bits as int % 0x10_0000_0000_0000
}

pub open spec fn nan64(bits: u64) -> bool {
    exponent64(bits) == 0x7FF && fraction64(bits) != 0
}

/// The significand of a normal number; its value is this times two to `exponent64(bits) - 1075`.
pub open spec fn significand64(bits: u64) -> int {
    0x10_0000_0000_0000 + fraction64(bits)
}

/// The integer part of `m * 2^e`, for `m` and the result not negative.
pub open spec fn scaled_floor(m: int, e: int) -> int {
    if e >= 0 {
        m * pow2(e as nat)
    } else {
        m / pow2((-e) as nat) as int
    }
}

/// The integer part of the number, clamped to the range of `u32`; a NaN gives 0.
pub open spec fn to_u32_saturating(bits: u64) -> u32 {
    if nan64(bits) || negative64(bits) || exponent64(bits) == 0 {
        0
    } else if exponent64(bits) == 0x7FF {
        u32::MAX
    } else {
        let whole = scaled_floor(significand64(bits), exponent64(bits) - 1075);
        if whole > u32::MAX {
            u32::MAX
        } else {
            whole as u32
        }
    }
}

/// `m / d` rounded to the nearest integer, ties to even.
pub open spec fn rounded_quotient(m: int, d: int) -> int {
    let q = m / d;
    let r = m % d;
    if 2 * r > d || (2 * r == d && q % 2 == 1) {
        q + 1
    } else {
        q
    }
}

/// How many low bits of the significand a binary32 with the same exponent cannot hold: 29 while it
/// is normal, more as it becomes subnormal.
pub open spec fn dropped_bits(exponent: int) -> int {
    if exponent >= 897 {
        29
    } else {
        926 - exponent
    }
}

/// Binary32 exponent field below which the rounded significand counts up: adding the significand to
/// this pattern carries into the exponent by itself.
pub open spec fn exponent_base32(exponent: int) -> int {
    if exponent >= 897 {
        (exponent - 897) * 0x80_0000
    } else {
        0
    }
}

/// Magnitude pattern of the binary32 number nearest to a finite binary64 number, ties to even;
/// numbers that are too large become infinite.
pub open spec fn narrowed_magnitude(bits: u64) -> int {
    let exponent = exponent64(bits);
    let sum = exponent_base32(exponent) + rounded_quotient(
        significand64(bits),
        pow2(dropped_bits(exponent) as nat) as int,
    );
    if exponent == 0 {
        0
    } else if sum > 0x7F80_0000 {
        0x7F80_0000
    } else {
        sum
    }
}

/// Whether a binary32 pattern is a NaN.
pub open spec fn nan32(bits: u32) -> bool {
    bits % 0x8000_0000 > 0x7F80_0000
}

/// The pattern of the nearest binary32 number, with the sign kept. A NaN stays one.
pub open spec fn narrowed(bits: u64) -> u32 {
    let magnitude = if nan64(bits) {
        0x7FC0_0000
    } else if exponent64(bits) == 0x7FF {
        0x7F80_0000
    } else {
        narrowed_magnitude(bits)
    };
    (magnitude + (if negative64(bits) {
        0x8000_0000int
    } else {
        0
    })) as u32
}

/// Two to the power `k`.
pub fn power(k: u32) -> (r: u64)
    requires
        k <= 63,
    ensures
        r == pow2(k as nat),
{
    let mut r: u64 = 1;
    let mut i: u32 = 0;
    proof {
        lemma2_to64();
    }
    while i < k
        invariant
            i <= k <= 63,
            r == pow2(i as nat),
        decreases k - i,
    {
        proof {
            lemma_pow2_below_62(i as nat);
            lemma_pow2_unfold((i + 1) as nat);
        }
        r = r * 2;
        i += 1;
    }
    r
}

proof fn lemma_pow2_below_62(i: nat)
    requires
        i <= 62,
    ensures
        pow2(i) <= 0x4000_0000_0000_0000,
{
    lemma2_to64_rest();
    if i < 62 {
        lemma_pow2_strictly_increases(i, 62);
    }
}

/// A power of two above a 53-bit significand divides it to nothing.
proof fn lemma_vanishes(m: int, k: nat)
    requires
        0 <= m < 0x20_0000_0000_0000,
        k >= 53,
    ensures
        m / pow2(k) as int == 0,
        m % pow2(k) as int == m,
        pow2(k) >= 0x20_0000_0000_0000,
{
    lemma2_to64_rest();
    if k > 53 {
        lemma_pow2_strictly_increases(53, k);
    }
    vstd::arithmetic::div_mod::lemma_basic_div(m, pow2(k) as int);
    vstd::arithmetic::div_mod::lemma_small_mod(m as nat, pow2(k));
}

/// Converts the binary64 number with the given pattern to an integer, truncating and clamping.
pub fn binary64_to_u32(bits: u64) -> (r: u32)
    ensures
        r == to_u32_saturating(bits),
{
    let exponent: u64 = (bits / 0x10_0000_0000_0000) % 0x800;
    let fraction: u64 = bits % 0x10_0000_0000_0000;
    if exponent == 0x7FF && fraction != 0 {
        return 0;
    }
    if bits >= 0x8000_0000_0000_0000 || exponent == 0 {
        return 0;
    }
    if exponent == 0x7FF {
        return u32::MAX;
    }
    let m: u64 = 0x10_0000_0000_0000 + fraction;
    if exponent >= 1075 {
        proof {
            let e = (exponent - 1075) as nat;
            lemma_pow2_pos(e);
            assert(m * pow2(e) >= m) by (nonlinear_arith)
                requires
                    pow2(e) >= 1,
                    m >= 0,
            ;
        }
        return u32::MAX;
    }
    let k: u64 = 1075 - exponent;
    if k >= 53 {
        proof {
            lemma_vanishes(m as int, k as nat);
        }
        return 0;
    }
    let d: u64 = power(k as u32);
    proof {
        lemma_pow2_pos(k as nat);
    }
    let whole: u64 = m / d;
    if whole > u32::MAX as u64 {
        u32::MAX
    } else {
        whole as u32
    }
}

/// Narrows the binary64 number with the given pattern to binary32.
pub fn binary64_to_binary32(bits: u64) -> (r: Binary32)
    ensures
        r.bits == narrowed(bits),
        nan64(bits) ==> nan32(r.bits),
{
    let exponent: u64 = (bits / 0x10_0000_0000_0000) % 0x800;
    let fraction: u64 = bits % 0x10_0000_0000_0000;
    let sign: u32 = if bits >= 0x8000_0000_0000_0000 {
        0x8000_0000
    } else {
        0
    };
    if exponent == 0x7FF {
        if fraction != 0 {
            return Binary32 { bits: 0x7FC0_0000 + sign };
        }
        return Binary32 { bits: 0x7F80_0000 + sign };
    }
    if exponent == 0 {
        return Binary32 { bits: sign };
    }
    let m: u64 = 0x10_0000_0000_0000 + fraction;
    let drop: u64 = if exponent >= 897 {
        29
    } else {
        926 - exponent
    };
    let base: u64 = if exponent >= 897 {
        (exponent - 897) * 0x80_0000
    } else {
        0
    };
    let rounded: u64 = if drop >= 54 {
        proof {
            lemma_vanishes(m as int, drop as nat);
            lemma2_to64_rest();
            if drop > 54 {
                lemma_pow2_strictly_increases(54, drop as nat);
            }
        }
        0
    } else {
        let d: u64 = power(drop as u32);
        proof {
            lemma2_to64();
            lemma2_to64_rest();
            lemma_pow2_pos(drop as nat);
            if drop > 29 {
                lemma_pow2_strictly_increases(29, drop as nat);
            }
            if drop < 54 {
                lemma_pow2_strictly_increases(drop as nat, 54);
            }
            assert(m / d <= 0x100_0000) by (nonlinear_arith)
                requires
                    m < 0x20_0000_0000_0000,
                    d >= 0x2000_0000,
            ;
        }
        let q: u64 = m / d;
        let rem: u64 = m % d;
        if 2 * rem > d || (2 * rem == d && q % 2 == 1) {
            q + 1
        } else {
            q
        }
    };
    let sum: u64 = base + rounded;
    let magnitude: u32 = if sum > 0x7F80_0000 {
        0x7F80_0000
    } else {
        sum as u32
    };
    Binary32 { bits: magnitude + sign }
}

/// The integer part of a binary32 number, clamped to the range of `u32`; a NaN gives 0.
pub open spec fn binary32_saturating(bits: u32) -> u32 {
    let exponent = (bits / 0x80_0000) as int % 0x100;
    if nan32(bits) || bits >= 0x8000_0000 || exponent == 0 {
        0
    } else if exponent == 0xFF {
        u32::MAX
    } else {
        let whole = scaled_floor(0x80_0000 + bits as int % 0x80_0000, exponent - 150);
        if whole > u32::MAX {
            u32::MAX
        } else {
            whole as u32
        }
    }
}

impl Binary32 {
    /// Converts to an integer, truncating and clamping.
    pub fn to_u32(self) -> (r: u32)
        ensures
            r == binary32_saturating(self.bits),
    {
        let exponent: u32 = (self.bits / 0x80_0000) % 0x100;
        if self.bits % 0x8000_0000 > 0x7F80_0000 || self.bits >= 0x8000_0000 || exponent == 0 {
            return 0;
        }
        if exponent == 0xFF {
            return u32::MAX;
        }
        let m: u64 = 0x80_0000 + (self.bits % 0x80_0000) as u64;
        if exponent >= 150 {
            let e: u32 = exponent - 150;
            if e >= 9 {
                proof {
                    lemma2_to64();
                    if e > 9 {
                        lemma_pow2_strictly_increases(9, e as nat);
                    }
                    assert(m * pow2(e as nat) > u32::MAX) by (nonlinear_arith)
                        requires
                            m >= 0x80_0000,
                            pow2(e as nat) >= 512,
                    ;
                }
                return u32::MAX;
            }
            let f: u64 = power(e);
            proof {
                lemma2_to64();
                lemma_pow2_strictly_increases(e as nat, 9);
                assert(m * f < 0x2_0000_0000) by (nonlinear_arith)
                    requires
                        m < 0x100_0000,
                        f < 512,
                ;
            }
            let whole: u64 = m * f;
            return if whole > u32::MAX as u64 {
                u32::MAX
            } else {
                whole as u32
            };
        }
        let k: u32 = 150 - exponent;
        if k >= 53 {
            proof {
                lemma_vanishes(m as int, k as nat);
            }
            return 0;
        }
        let d: u64 = power(k);
        proof {
            lemma_pow2_pos(k as nat);
            assert(m / d <= m) by (nonlinear_arith)
                requires
                    d >= 1,
                    m >= 0,
            ;
        }
        (m / d) as u32
    }
}

} // verus!
