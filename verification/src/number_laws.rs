//! Laws of the numbers that cameras declare: whole numbers arrive as they were declared, in either
//! width of floating point, and fractions are cut off.

use crate::ieee754::{
    binary32_saturating, exponent64, nan32, narrowed, scaled_floor, significand64, to_u32_saturating,
};
use vstd::arithmetic::div_mod::{lemma_div_multiples_vanish, lemma_fundamental_div_mod};
use vstd::arithmetic::power2::{lemma2_to64, lemma2_to64_rest, lemma_pow2_adds, lemma_pow2_pos, pow2};
use vstd::prelude::*;

verus! {

/// Whether `k` is the place of the first binary digit of `n`.
pub open spec fn leads(n: int, k: nat) -> bool {
    pow2(k) <= n < 2 * pow2(k)
}

/// The binary64 pattern of `n`, whose first binary digit is at `k`.
pub open spec fn whole64(n: int, k: nat) -> int {
    (1023 + k) * 0x10_0000_0000_0000 + (n - pow2(k)) * pow2((52 - k) as nat)
}

/// The binary32 pattern of `n`, whose first binary digit is at `k`.
pub open spec fn whole32(n: int, k: nat) -> int {
    (127 + k) * 0x80_0000 + (n - pow2(k)) * pow2((23 - k) as nat)
}

/// The parts of the binary64 pattern of a whole number.
proof fn lemma_parts64(n: int, k: nat)
    requires
        k <= 52,
        leads(n, k),
    ensures
        0 <= whole64(n, k) < 0x8000_0000_0000_0000,
        exponent64(whole64(n, k) as u64) == 1023 + k,
        significand64(whole64(n, k) as u64) == n * pow2((52 - k) as nat),
        pow2(k) * pow2((52 - k) as nat) == 0x10_0000_0000_0000,
{
    let p = pow2(k) as int;
    let q = pow2((52 - k) as nat) as int;
    lemma_pow2_adds(k, (52 - k) as nat);
    lemma2_to64_rest();
    lemma_pow2_pos(k);
    lemma_pow2_pos((52 - k) as nat);
    assert(p * q == 0x10_0000_0000_0000);
    let f = (n - p) * q;
    assert(0 <= f < p * q) by (nonlinear_arith)
        requires
            p <= n < 2 * p,
            q > 0,
            f == (n - p) * q,
    ;
    assert(f + p * q == n * q) by (nonlinear_arith)
        requires
            f == (n - p) * q,
    ;
    let bits = whole64(n, k);
    assert(bits == (1023 + k) * 0x10_0000_0000_0000 + f);
    assert(bits / 0x10_0000_0000_0000 == 1023 + k);
    assert(bits % 0x10_0000_0000_0000 == f);
}

/// A whole number that is declared as a binary64 number is read as itself.
pub proof fn law_whole_numbers_are_read(n: u32, k: nat)
    requires
        k < 32,
        leads(n as int, k),
    ensures
        to_u32_saturating(whole64(n as int, k) as u64) == n,
        to_u32_saturating(0) == 0,
{
    let q = pow2((52 - k) as nat) as int;
    lemma_parts64(n as int, k);
    lemma_pow2_pos((52 - k) as nat);
    assert((n * q) / q == n) by {
        lemma_div_multiples_vanish(n as int, q);
        assert(n * q == q * n) by (nonlinear_arith);
    }
    assert((-(1023 + k - 1075)) as nat == (52 - k) as nat);
}

/// What is read of a declared number is its whole part: not more than the number, and less than one
/// below it, as long as it fits. `m` times two to `e - 1075` is the number.
pub proof fn law_fractions_are_cut_off(bits: u64)
    requires
        bits < 0x8000_0000_0000_0000,
        0 < exponent64(bits) < 1075,
    ensures
        ({
            let m = significand64(bits);
            let unit = pow2((1075 - exponent64(bits)) as nat) as int;
            let read = to_u32_saturating(bits) as int;
            &&& read * unit <= m
            &&& read < u32::MAX ==> m < (read + 1) * unit
        }),
{
    let m = significand64(bits);
    let unit = pow2((1075 - exponent64(bits)) as nat) as int;
    lemma_pow2_pos((1075 - exponent64(bits)) as nat);
    lemma_fundamental_div_mod(m, unit);
    let whole = m / unit;
    let read = to_u32_saturating(bits) as int;
    assert((-(exponent64(bits) - 1075)) as nat == (1075 - exponent64(bits)) as nat);
    assert(m == unit * whole + m % unit);
    assert(whole >= 0) by (nonlinear_arith)
        requires
            m >= 0,
            unit > 0,
            whole == m / unit,
    ;
    assert(0 <= m % unit < unit) by (nonlinear_arith)
        requires
            unit > 0,
    ;
    let rest = m % unit;
    assert(read * unit <= m) by (nonlinear_arith)
        requires
            read <= whole,
            unit > 0,
            m == unit * whole + rest,
            rest >= 0,
    ;
    if read < u32::MAX {
        assert(read == whole);
        assert(m < (read + 1) * unit) by (nonlinear_arith)
            requires
                read == whole,
                m == unit * whole + rest,
                rest < unit,
        ;
    }
}

/// A whole number keeps its value when it is narrowed to binary32, as long as it has no more than 24
/// binary digits, and is read from there as itself.
pub proof fn law_whole_numbers_are_narrowed(n: u32, k: nat)
    requires
        k < 24,
        leads(n as int, k),
    ensures
        narrowed(whole64(n as int, k) as u64) == whole32(n as int, k),
        binary32_saturating(whole32(n as int, k) as u32) == n,
{
    let p = pow2(k) as int;
    let r = pow2((23 - k) as nat) as int;
    lemma_parts64(n as int, k);
    lemma2_to64();
    lemma_pow2_adds(k, (23 - k) as nat);
    lemma_pow2_adds((23 - k) as nat, 29);
    lemma_pow2_pos(k);
    lemma_pow2_pos((23 - k) as nat);
    assert((23 - k) as nat + 29 == (52 - k) as nat);
    assert(p * r == 0x80_0000);
    let q = pow2((52 - k) as nat) as int;
    assert(q == r * 0x2000_0000);
    let m = significand64(whole64(n as int, k) as u64);
    let nr = n * r;
    assert(m == nr * 0x2000_0000) by (nonlinear_arith)
        requires
            m == n * q,
            q == r * 0x2000_0000,
            nr == n * r,
    ;
    assert(pow2(29) == 0x2000_0000);
    assert(m / 0x2000_0000 == nr && m % 0x2000_0000 == 0);
    let f = (n - p) * r;
    assert(nr == 0x80_0000 + f && 0 <= f < 0x80_0000) by (nonlinear_arith)
        requires
            nr == n * r,
            f == (n - p) * r,
            p * r == 0x80_0000,
            p <= n < 2 * p,
            r > 0,
    ;
    let single = whole32(n as int, k);
    assert(single == (127 + k) * 0x80_0000 + f);
    assert(single / 0x80_0000 == 127 + k);
    assert(single % 0x80_0000 == f);
    assert(0 <= single < 0x7F80_0000);
    assert(nr / r == n) by {
        lemma_div_multiples_vanish(n as int, r);
        assert(n * r == r * n) by (nonlinear_arith);
    }
    let b = single as u32;
    assert(b == single);
    assert((b / 0x80_0000) as int % 0x100 == 127 + k);
    assert(!nan32(b));
    let whole = scaled_floor(nr, 127 + k - 150);
    assert(whole == n) by {
        if k < 23 {
            assert((-(127 + k - 150)) as nat == (23 - k) as nat);
        } else {
            assert(r == 1);
            assert(nr == n) by (nonlinear_arith)
                requires
                    nr == n * r,
                    r == 1,
            ;
            assert(whole == nr * pow2(0));
        }
    }
}

} // verus!
