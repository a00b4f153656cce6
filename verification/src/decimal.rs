//! Decimal lexemes with a point or an exponent, as the integer that their binary64 value truncates
//! to. The arithmetic is on decimal digits, so lexemes of any length are read exactly.

use crate::ieee754::{power, rounded_quotient};
use crate::text::power_of_ten;
use vstd::arithmetic::power2::{lemma2_to64, lemma2_to64_rest, lemma_pow2_pos, lemma_pow2_unfold, pow2};
use vstd::prelude::*;

verus! {

/// The number that decimal digits write, most significant first.
pub open spec fn digit_number(d: Seq<u8>) -> nat
    decreases d.len(),
{
    if d.len() == 0 {
        0
    } else {
        digit_number(d.drop_last()) * 10 + d.last() as nat
    }
}

pub open spec fn are_digits(d: Seq<u8>) -> bool {
    forall|i: int| 0 <= i < d.len() ==> #[trigger] d[i] <= 9
}

/// How many bits `q` has.
pub open spec fn bit_length(q: nat) -> nat
    decreases q,
{
    if q == 0 {
        0
    } else {
        1 + bit_length(q / 2)
    }
}

/// `num / den` rounded to the 53 significant bits of a binary64 number, ties to even, and then
/// truncated to an integer, at most `u64::MAX`.
pub open spec fn truncated_nearest(num: nat, den: nat) -> u64 {
    let whole = num / den;
    if whole > u64::MAX {
        u64::MAX
    } else {
        let bits = bit_length(whole);
        let rounded = if bits <= 53 {
            let scale = pow2((53 - bits) as nat) as int;
            rounded_quotient(num * scale, den as int) / scale
        } else {
            let scale = pow2((bits - 53) as nat) as int;
            rounded_quotient(num as int, den * scale) * scale
        };
        if rounded > u64::MAX {
            u64::MAX
        } else {
            rounded as u64
        }
    }
}

/// The integer that `digits * 10^scale` gives by way of binary64.
pub open spec fn scaled_to_u64(digits: Seq<u8>, scale: int) -> u64 {
    if scale >= 0 {
        truncated_nearest(digit_number(digits) * power_of_ten(scale as nat), 1)
    } else {
        truncated_nearest(digit_number(digits), power_of_ten((-scale) as nat))
    }
}

proof fn lemma_bit_length(q: nat)
    ensures
        q < pow2(bit_length(q)),
        q > 0 ==> bit_length(q) >= 1 && pow2((bit_length(q) - 1) as nat) <= q,
    decreases q,
{
    lemma2_to64();
    if q > 0 {
        lemma_bit_length(q / 2);
        lemma_pow2_unfold(bit_length(q));
        if q / 2 > 0 {
            lemma_pow2_unfold((bit_length(q) - 1) as nat);
        }
    }
}

proof fn lemma_pow10_pos(k: nat)
    ensures
        power_of_ten(k) >= 1,
    decreases k,
{
    if k > 0 {
        lemma_pow10_pos((k - 1) as nat);
    }
}

proof fn lemma_pow10_adds(a: nat, b: nat)
    ensures
        power_of_ten(a + b) == power_of_ten(a) * power_of_ten(b),
    decreases b,
{
    if b > 0 {
        lemma_pow10_adds(a, (b - 1) as nat);
        let x = power_of_ten(a) as int;
        let y = power_of_ten((b - 1) as nat) as int;
        assert(x * (10 * y) == 10 * (x * y)) by (nonlinear_arith);
        assert((a + b - 1) as nat == a + (b - 1) as nat);
    } else {
        assert(power_of_ten(a) * 1 == power_of_ten(a));
    }
}

proof fn lemma_digit_number_below(d: Seq<u8>)
    requires
        are_digits(d),
    ensures
        digit_number(d) < power_of_ten(d.len()),
    decreases d.len(),
{
    if d.len() > 0 {
        lemma_digit_number_below(d.drop_last());
        assert(d.last() <= 9);
    }
}

/// A number splits at any place into its head, shifted, and its tail.
proof fn lemma_digit_number_splits(a: Seq<u8>, b: Seq<u8>)
    ensures
        digit_number(a + b) == digit_number(a) * power_of_ten(b.len()) + digit_number(b),
    decreases b.len(),
{
    if b.len() == 0 {
        assert(a + b =~= a);
        assert(digit_number(a) * 1 == digit_number(a));
    } else {
        lemma_digit_number_splits(a, b.drop_last());
        assert((a + b).drop_last() =~= a + b.drop_last());
        let x = digit_number(a) as int;
        let p = power_of_ten((b.len() - 1) as nat) as int;
        assert((x * p) * 10 == x * (10 * p)) by (nonlinear_arith);
    }
}

/// `count` zero digits.
pub open spec fn zero_digits(count: int) -> Seq<u8> {
    Seq::new(count as nat, |i: int| 0u8)
}

proof fn lemma_zero_digits(d: Seq<u8>)
    ensures
        digit_number(d) == 0 <==> (forall|i: int| 0 <= i < d.len() ==> #[trigger] d[i] == 0),
    decreases d.len(),
{
    if d.len() > 0 {
        lemma_zero_digits(d.drop_last());
        if forall|i: int| 0 <= i < d.drop_last().len() ==> #[trigger] d.drop_last()[i] == 0 {
            if d.last() == 0 {
                assert forall|i: int| 0 <= i < d.len() implies #[trigger] d[i] == 0 by {
                    if i < d.len() - 1 {
                        assert(d.drop_last()[i] == 0);
                    }
                }
            }
        } else {
            let i = choose|i: int| 0 <= i < d.drop_last().len() && #[trigger] d.drop_last()[i] != 0;
            assert(d[i] != 0);
        }
    }
}

/// The digits before the point of `d * 10^(pos - d.len())`.
pub open spec fn whole_digits(d: Seq<u8>, pos: int) -> Seq<u8> {
    if pos <= d.len() {
        d.take(pos)
    } else {
        d + zero_digits(pos - d.len())
    }
}

/// The digits behind the point.
pub open spec fn fraction_digits(d: Seq<u8>, pos: int) -> Seq<u8> {
    if pos <= d.len() {
        d.skip(pos)
    } else {
        Seq::empty()
    }
}

/// The value by its digits before and behind the point.
proof fn lemma_split_at_point(d: Seq<u8>, pos: int)
    requires
        pos >= 0,
        are_digits(d),
    ensures
        scaled_to_u64(d, pos - d.len()) == ({
            let f = fraction_digits(d, pos);
            let t = power_of_ten(f.len());
            truncated_nearest(digit_number(whole_digits(d, pos)) * t + digit_number(f), t)
        }),
        are_digits(whole_digits(d, pos)),
        are_digits(fraction_digits(d, pos)),
{
    let w = whole_digits(d, pos);
    let f = fraction_digits(d, pos);
    if pos <= d.len() {
        assert(w + f =~= d);
        lemma_digit_number_splits(w, f);
        if pos == d.len() {
            assert(digit_number(d) * 1 == digit_number(d));
        }
    } else {
        let z = zero_digits(pos - d.len());
        lemma_digit_number_splits(d, z);
        lemma_zero_digits(z);
        assert(digit_number(f) == 0);
        assert(digit_number(w) * 1 == digit_number(w));
    }
}

/// Below a tenth, nothing is left.
pub proof fn lemma_tiny(d: Seq<u8>, scale: int)
    requires
        are_digits(d),
        d.len() + scale < 0,
    ensures
        scaled_to_u64(d, scale) == 0,
{
    let num = digit_number(d);
    let den = power_of_ten((-scale) as nat);
    lemma_digit_number_below(d);
    let gap = (-scale - d.len()) as nat;
    lemma_pow10_adds(d.len(), gap);
    lemma_pow10_pos(d.len());
    lemma_pow10_pos((gap - 1) as nat);
    let x = power_of_ten(d.len()) as int;
    let g = power_of_ten(gap) as int;
    assert(g >= 10);
    assert(x * g >= 10 * x) by (nonlinear_arith)
        requires
            g >= 10,
            x >= 1,
    ;
    assert(num * 10 < den);
    vstd::arithmetic::div_mod::lemma_basic_div(num as int, den as int);
    lemma2_to64_rest();
    let s = pow2(53) as int;
    let a = num * s;
    assert(a * 10 <= den * s && a >= 0) by (nonlinear_arith)
        requires
            num * 10 < den,
            s >= 0,
            a == num * s,
            num >= 0,
    ;
    lemma_divides_below(a, den as int, s - 1);
    vstd::arithmetic::div_mod::lemma_basic_div(rounded_quotient(a, den as int), s);
    assert(num / den == 0);
    assert(bit_length(0) == 0);
}

/// A quotient that stays below `bound + 1` before rounding is at most `bound` after it, if there
/// is room for the rounding.
proof fn lemma_divides_below(a: int, den: int, bound: int)
    requires
        a >= 0,
        den >= 1,
        bound == 0x1F_FFFF_FFFF_FFFF,
        a * 10 <= den * (bound + 1),
    ensures
        0 <= rounded_quotient(a, den) <= bound,
{
    let q = a / den;
    assert(q * den <= a) by (nonlinear_arith)
        requires
            q == a / den,
            den >= 1,
            a >= 0,
    ;
    assert(q >= 0) by (nonlinear_arith)
        requires
            q == a / den,
            den >= 1,
            a >= 0,
    ;
    assert(q + 1 <= bound) by (nonlinear_arith)
        requires
            q * den <= a,
            a * 10 <= den * (bound + 1),
            den >= 1,
            bound == 0x1F_FFFF_FFFF_FFFF,
    ;
}

/// Rounding `i + a / t` to 53 bits where `i` has fewer: it goes up to the next integer only from
/// within half a unit of the last bit.
proof fn lemma_small_whole(i: nat, a: nat, t: nat)
    requires
        t >= 1,
        a < t,
        i <= u64::MAX,
        bit_length(i) < 53,
    ensures
        truncated_nearest(i * t + a, t) == (if a * pow2((54 - bit_length(i)) as nat) >= t * (pow2(
            (54 - bit_length(i)) as nat,
        ) - 1) {
            (i + 1) as u64
        } else {
            i as u64
        }),
{
    let k = (53 - bit_length(i)) as nat;
    let s = pow2(k) as int;
    lemma_pow2_unfold(k);
    lemma_pow2_unfold(k + 1);
    lemma_pow2_pos((k - 1) as nat);
    let half = pow2((k - 1) as nat) as int;
    assert(s == 2 * half && half >= 1);
    assert(pow2(k + 1) == 2 * s);
    let num = i * t + a;
    lemma_bit_length(i);
    lemma2_to64_rest();
    lemma_pow2_below(bit_length(i), 53);
    assert(i < 0x20_0000_0000_0000);
    assert(num as int / t as int == i) by {
        vstd::arithmetic::div_mod::lemma_fundamental_div_mod_converse(num as int, t as int, i as int, a as int);
    }
    let b = a * s;
    let q = b / t as int;
    let r = b % t as int;
    assert(b >= 0) by (nonlinear_arith)
        requires
            b == a * s,
            a >= 0,
            s >= 1,
    ;
    assert(b == q * t + r && 0 <= r < t) by {
        vstd::arithmetic::div_mod::lemma_fundamental_div_mod(b, t as int);
        vstd::arithmetic::mul::lemma_mul_is_commutative(q, t as int);
    }
    assert(num * s == (i * s + q) * t + r) by (nonlinear_arith)
        requires
            num == i * t + a,
            b == a * s,
            b == q * t + r,
    ;
    vstd::arithmetic::div_mod::lemma_fundamental_div_mod_converse(num * s, t as int, i * s + q, r);
    assert(0 <= q < s) by (nonlinear_arith)
        requires
            b == q * t + r,
            0 <= r < t,
            b == a * s,
            0 <= a < t,
            s >= 1,
    ;
    let up = 2 * r > t || (2 * r == t && (i * s + q) % 2 == 1);
    let rounded = rounded_quotient(num * s, t as int);
    assert(rounded == i * s + q + (if up {
        1int
    } else {
        0
    }));
    let reaches = a * (2 * s) >= t * (2 * s - 1);
    if reaches {
        assert(q >= s - 1) by (nonlinear_arith)
            requires
                a * (2 * s) >= t * (2 * s - 1),
                b == a * s,
                b == q * t + r,
                0 <= r < t,
                t >= 1,
                s >= 1,
        ;
        assert(q == s - 1);
        assert(2 * r >= t) by (nonlinear_arith)
            requires
                a * (2 * s) >= t * (2 * s - 1),
                b == a * s,
                b == q * t + r,
                q == s - 1,
        ;
        lemma_odd(i as int, half, q);
        assert(up);
        assert(rounded == (i + 1) * s) by (nonlinear_arith)
            requires
                rounded == i * s + q + 1,
                q == s - 1,
        ;
        vstd::arithmetic::div_mod::lemma_div_by_multiple(i as int + 1, s);
    } else {
        if up {
            assert(q < s - 1) by (nonlinear_arith)
                requires
                    !(a * (2 * s) >= t * (2 * s - 1)),
                    b == a * s,
                    b == q * t + r,
                    0 <= q < s,
                    2 * r >= t,
                    t >= 1,
            ;
        }
        let rest = rounded - i * s;
        assert(0 <= rest < s);
        vstd::arithmetic::div_mod::lemma_fundamental_div_mod_converse(rounded, s, i as int, rest);
    }
}

/// `i * (2 * half) + q` is odd where `q` is one less than an even number.
proof fn lemma_odd(i: int, half: int, q: int)
    requires
        q == 2 * half - 1,
    ensures
        (i * (2 * half) + q) % 2 == 1,
{
    assert(i * (2 * half) + q == 2 * (i * half + half - 1) + 1) by (nonlinear_arith)
        requires
            q == 2 * half - 1,
    ;
}

proof fn lemma_pow2_below(a: nat, b: nat)
    requires
        a <= b,
    ensures
        pow2(a) <= pow2(b),
{
    if a < b {
        vstd::arithmetic::power2::lemma_pow2_strictly_increases(a, b);
    }
}

/// Rounding `i + a / t` where `i` has 53 bits: to the nearest integer, ties to even.
proof fn lemma_exact_whole(i: nat, a: nat, t: nat)
    requires
        t >= 1,
        a < t,
        bit_length(i) == 53,
    ensures
        i < 0x20_0000_0000_0000,
        truncated_nearest(i * t + a, t) == (if 2 * a > t || (2 * a == t && i % 2 == 1) {
            (i + 1) as u64
        } else {
            i as u64
        }),
{
    let num = i * t + a;
    lemma_bit_length(i);
    lemma2_to64();
    lemma2_to64_rest();
    vstd::arithmetic::div_mod::lemma_fundamental_div_mod_converse(num as int, t as int, i as int, a as int);
    let rounded = rounded_quotient(num as int * 1, t as int);
    assert(rounded / 1 == rounded);
    assert(num / t == i);
    assert(pow2(0) == 1);
}

/// Rounding `i + a / t` where `i` has more than 53 bits: the low bits of `i` decide, and whether
/// there is a fraction.
proof fn lemma_large_whole(i: nat, a: nat, t: nat)
    requires
        t >= 1,
        a < t,
        i <= u64::MAX,
        bit_length(i) > 53,
    ensures
        ({
            let s = pow2((bit_length(i) - 53) as nat) as int;
            let h = i as int / s;
            let l = i as int % s;
            let up = 2 * l > s || (2 * l == s && (a > 0 || h % 2 == 1));
            let rounded = (h + (if up {
                1int
            } else {
                0
            })) * s;
            truncated_nearest(i * t + a, t) == (if rounded > u64::MAX {
                u64::MAX
            } else {
                rounded as u64
            })
        }),
{
    let j = (bit_length(i) - 53) as nat;
    let s = pow2(j) as int;
    lemma_pow2_unfold(j);
    lemma_pow2_pos((j - 1) as nat);
    let half = pow2((j - 1) as nat) as int;
    assert(s == 2 * half && half >= 1);
    let num = i * t + a;
    vstd::arithmetic::div_mod::lemma_fundamental_div_mod_converse(num as int, t as int, i as int, a as int);
    let h = i as int / s;
    let l = i as int % s;
    assert(i == s * h + l && 0 <= l < s) by {
        vstd::arithmetic::div_mod::lemma_fundamental_div_mod(i as int, s);
    }
    let ts = t * s;
    let r = t * l + a;
    assert(ts >= 1) by (nonlinear_arith)
        requires
            ts == t * s,
            t >= 1,
            s >= 1,
    ;
    assert(num == h * ts + r) by (nonlinear_arith)
        requires
            num == i * t + a,
            i == s * h + l,
            ts == t * s,
            r == t * l + a,
    ;
    assert(0 <= r < ts) by (nonlinear_arith)
        requires
            r == t * l + a,
            0 <= a < t,
            0 <= l < s,
            ts == t * s,
    ;
    vstd::arithmetic::div_mod::lemma_fundamental_div_mod_converse(num as int, ts, h, r);
    if 2 * l > s {
        assert(2 * r > ts) by (nonlinear_arith)
            requires
                r == t * l + a,
                2 * l > s,
                ts == t * s,
                t >= 1,
                a >= 0,
        ;
    } else if 2 * l == s {
        assert(2 * r == ts + 2 * a) by (nonlinear_arith)
            requires
                r == t * l + a,
                2 * l == s,
                ts == t * s,
        ;
    } else {
        assert(2 * l + 2 <= s);
        assert(2 * r < ts) by (nonlinear_arith)
            requires
                r == t * l + a,
                2 * l + 2 <= s,
                ts == t * s,
                0 <= a < t,
        ;
    }
}

/// Doubles a fraction in place; the result is what comes out before the point.
fn double_fraction(f: &mut Vec<u8>) -> (carry: u8)
    requires
        are_digits(old(f)@),
    ensures
        carry <= 1,
        are_digits(final(f)@),
        final(f)@.len() == old(f)@.len(),
        2 * digit_number(old(f)@) == carry * power_of_ten(old(f)@.len()) + digit_number(final(f)@),
{
    let mut carry: u8 = 0;
    let mut i: usize = f.len();
    let ghost before = f@;
    assert(before.skip(i as int) =~= Seq::empty());
    while i > 0
        invariant
            i <= f@.len(),
            f@.len() == before.len(),
            carry <= 1,
            are_digits(before),
            are_digits(f@),
            f@.take(i as int) == before.take(i as int),
            2 * digit_number(before.skip(i as int)) == carry * power_of_ten((before.len() - i) as nat)
                + digit_number(f@.skip(i as int)),
        decreases i,
    {
        i -= 1;
        let ghost f0 = f@;
        let ghost c0 = carry as int;
        assert(f0.take(i + 1)[i as int] == f0[i as int]);
        assert(before.take(i + 1)[i as int] == before[i as int]);
        let x: u8 = f[i];
        let sum: u8 = 2 * x + carry;
        f.set(i, sum % 10);
        carry = sum / 10;
        proof {
            let p = power_of_ten((before.len() - i - 1) as nat) as int;
            assert(before.skip(i as int) =~= seq![x] + before.skip(i + 1));
            assert(f@.skip(i as int) =~= seq![(sum % 10) as u8] + f0.skip(i + 1));
            lemma_digit_number_splits(seq![x], before.skip(i + 1));
            lemma_digit_number_splits(seq![(sum % 10) as u8], f0.skip(i + 1));
            lemma_one_digit(x);
            lemma_one_digit((sum % 10) as u8);
            let old_tail = digit_number(before.skip(i + 1)) as int;
            let new_tail = digit_number(f0.skip(i + 1)) as int;
            let lo = sum as int % 10;
            let hi = sum as int / 10;
            assert(power_of_ten((before.len() - i) as nat) == 10 * p);
            assert(2 * (x * p + old_tail) == hi * (10 * p) + (lo * p + new_tail)) by (nonlinear_arith)
                requires
                    2 * old_tail == c0 * p + new_tail,
                    2 * x + c0 == 10 * hi + lo,
            ;
            assert(f@.take(i as int) =~= before.take(i as int)) by {
                assert forall|m: int| 0 <= m < i implies f@[m] == before[m] by {
                    assert(f0.take(i + 1)[m] == before.take(i + 1)[m]);
                }
            }
        }
    }
    assert(before.skip(0) =~= before);
    assert(f@.skip(0) =~= f@);
    carry
}

proof fn lemma_one_digit(x: u8)
    ensures
        digit_number(seq![x]) == x,
{
    assert(seq![x].drop_last() =~= Seq::empty());
    assert(digit_number(Seq::<u8>::empty()) == 0);
}

/// Whether a digit is not zero.
fn has_nonzero(f: &Vec<u8>) -> (r: bool)
    ensures
        r == (digit_number(f@) > 0),
{
    proof {
        lemma_zero_digits(f@);
    }
    let mut i: usize = 0;
    while i < f.len()
        invariant
            i <= f@.len(),
            forall|m: int| 0 <= m < i ==> #[trigger] f@[m] == 0,
            digit_number(f@) == 0 <==> (forall|m: int| 0 <= m < f@.len() ==> #[trigger] f@[m] == 0),
        decreases f@.len() - i,
    {
        if f[i] != 0 {
            return true;
        }
        i += 1;
    }
    false
}

/// Whether `a / t` is at least `1 - 2^-n`, where `a` is written by the digits `f` and `t` is ten to
/// their number: whether its first `n` binary digits are ones.
fn leading_ones(f: &mut Vec<u8>, n: u32) -> (r: bool)
    requires
        are_digits(old(f)@),
    ensures
        r == (digit_number(old(f)@) * pow2(n as nat) >= power_of_ten(old(f)@.len()) * (pow2(n as nat) - 1)),
{
    let ghost t = power_of_ten(f@.len()) as int;
    let ghost goal = digit_number(f@) * pow2(n as nat) >= t * (pow2(n as nat) - 1);
    let mut left: u32 = n;
    while left > 0
        invariant
            are_digits(f@),
            t == power_of_ten(f@.len()),
            goal == (digit_number(f@) * pow2(left as nat) >= t * (pow2(left as nat) - 1)),
            goal == (digit_number(old(f)@) * pow2(n as nat) >= power_of_ten(old(f)@.len()) * (pow2(n as nat)
                - 1)),
        decreases left,
    {
        let ghost a = digit_number(f@) as int;
        let carry: u8 = double_fraction(f);
        proof {
            let b = digit_number(f@) as int;
            let p = pow2((left - 1) as nat) as int;
            lemma_pow2_unfold(left as nat);
            lemma_pow2_pos((left - 1) as nat);
            lemma_digit_number_below(f@);
            lemma_pow10_pos(f@.len());
            if carry == 0 {
                assert(a * (2 * p) < t * (2 * p - 1)) by (nonlinear_arith)
                    requires
                        2 * a == 0 * t + b,
                        0 <= b < t,
                        p >= 1,
                ;
            } else {
                assert((a * (2 * p) >= t * (2 * p - 1)) == (b * p >= t * (p - 1))) by (nonlinear_arith)
                    requires
                        2 * a == 1 * t + b,
                ;
            }
        }
        if carry == 0 {
            return false;
        }
        left -= 1;
    }
    proof {
        lemma2_to64();
        assert(digit_number(f@) * 1 >= t * 0) by (nonlinear_arith);
    }
    true
}

/// How many bits `q` has.
fn bits_of(q: u64) -> (r: u32)
    ensures
        r == bit_length(q as nat),
        r <= 64,
{
    let mut left: u64 = q;
    let mut r: u32 = 0;
    proof {
        lemma2_to64();
    }
    while left > 0
        invariant
            r + bit_length(left as nat) == bit_length(q as nat),
            r <= 64,
            left as int * pow2(r as nat) <= q,
        decreases left,
    {
        proof {
            lemma_pow2_unfold((r + 1) as nat);
            lemma_pow2_pos(r as nat);
            let p = pow2(r as nat) as int;
            assert((left as int / 2) * (2 * p) <= left * p) by (nonlinear_arith)
                requires
                    left >= 0,
                    p >= 1,
            ;
            assert(p <= q) by (nonlinear_arith)
                requires
                    left * p <= q,
                    left >= 1,
                    p >= 1,
            ;
            if r >= 64 {
                lemma2_to64();
            }
        }
        left = left / 2;
        r += 1;
    }
    r
}

/// Rounds and truncates `whole + f / 10^f.len()`.
fn round_to_u64(whole: u64, f: &mut Vec<u8>) -> (r: u64)
    requires
        are_digits(old(f)@),
    ensures
        r == truncated_nearest(
            whole as nat * power_of_ten(old(f)@.len()) + digit_number(old(f)@),
            power_of_ten(old(f)@.len()),
        ),
{
    let ghost t = power_of_ten(f@.len());
    let ghost a = digit_number(f@);
    let bits: u32 = bits_of(whole);
    proof {
        lemma_digit_number_below(f@);
        lemma_pow10_pos(f@.len());
        lemma_bit_length(whole as nat);
        lemma2_to64_rest();
    }
    if bits < 53 {
        proof {
            lemma_small_whole(whole as nat, a, t);
            lemma_pow2_below(bits as nat, 53);
        }
        if leading_ones(f, 54 - bits) {
            whole + 1
        } else {
            whole
        }
    } else if bits == 53 {
        proof {
            lemma_exact_whole(whole as nat, a, t);
        }
        let carry: u8 = double_fraction(f);
        proof {
            lemma_digit_number_below(f@);
            assert(carry == 1 ==> carry * t == t);
            assert(carry == 0 ==> carry * t == 0);
        }
        if carry == 1 && (has_nonzero(f) || whole % 2 == 1) {
            whole + 1
        } else {
            whole
        }
    } else {
        proof {
            lemma_large_whole(whole as nat, a, t);
        }
        let scale: u64 = power(bits - 53);
        proof {
            lemma_pow2_pos((bits - 53) as nat);
        }
        let low: u64 = whole % scale;
        let high: u64 = whole / scale;
        proof {
            lemma2_to64();
            lemma_pow2_below((bits - 53) as nat, 11);
            assert(high * scale + low == whole) by {
                vstd::arithmetic::div_mod::lemma_fundamental_div_mod(whole as int, scale as int);
                vstd::arithmetic::mul::lemma_mul_is_commutative(high as int, scale as int);
            }
            assert((high + 1) * scale == high * scale + scale) by (nonlinear_arith);
        }
        let up = 2 * low > scale || (2 * low == scale && (has_nonzero(f) || high % 2 == 1));
        if !up {
            whole - low
        } else if whole - low > u64::MAX - scale {
            u64::MAX
        } else {
            whole - low + scale
        }
    }
}

/// The integer that `d * 10^scale` gives by way of binary64, `d` being read as decimal digits.
pub fn scaled_digits_to_u64(d: &Vec<u8>, scale: i128) -> (r: u64)
    requires
        are_digits(d@),
        -0x1000_0000_0000_0000_0000_0000 <= scale <= 0x1000_0000_0000_0000_0000_0000,
    ensures
        r == scaled_to_u64(d@, scale as int),
{
    let count: usize = d.len();
    let pos: i128 = count as i128 + scale;
    if pos < 0 {
        proof {
            lemma_tiny(d@, scale as int);
        }
        return 0;
    }
    let ghost w = whole_digits(d@, pos as int);
    let ghost fr = fraction_digits(d@, pos as int);
    let ghost t = power_of_ten(fr.len());
    proof {
        lemma_split_at_point(d@, pos as int);
        lemma_digit_number_below(fr);
        lemma_pow10_pos(fr.len());
    }
    let mut whole: u64 = 0;
    let mut i: i128 = 0;
    assert(w.take(0) =~= Seq::empty());
    while i < pos
        invariant
            0 <= i <= pos,
            count == d@.len(),
            pos <= 0x2000_0000_0000_0000_0000_0000,
            are_digits(d@),
            are_digits(w),
            w == whole_digits(d@, pos as int),
            w.len() == pos,
            fr == fraction_digits(d@, pos as int),
            t == power_of_ten(fr.len()),
            t >= 1,
            digit_number(fr) < t,
            scaled_to_u64(d@, scale as int) == truncated_nearest(
                digit_number(w) * t + digit_number(fr),
                t,
            ),
            whole == digit_number(w.take(i as int)),
        decreases pos - i,
    {
        proof {
            assert(w.take(i + 1).drop_last() =~= w.take(i as int));
            assert(w.take(i + 1).last() == w[i as int]);
        }
        if i >= count as i128 && whole == 0 {
            proof {
                assert(w =~= w.take(i as int) + w.skip(i as int));
                lemma_zero_digits(w.skip(i as int));
                lemma_digit_number_splits(w.take(i as int), w.skip(i as int));
                assert(0 * power_of_ten(w.skip(i as int).len()) == 0);
                lemma_small_whole(0, 0, t);
                lemma2_to64();
                lemma2_to64_rest();
                assert(t * (pow2(54) - 1) > 0) by (nonlinear_arith)
                    requires
                        t >= 1,
                        pow2(54) > 1,
                ;
                if pos == d@.len() {
                    assert(false);
                }
                assert(fr =~= Seq::empty());
            }
            return 0;
        }
        let digit: u8 = if i < count as i128 {
            d[i as usize]
        } else {
            0
        };
        let next: u128 = whole as u128 * 10 + digit as u128;
        if next > u64::MAX as u128 {
            proof {
                lemma_whole_too_large(w, i + 1, digit_number(fr), t);
            }
            return u64::MAX;
        }
        whole = next as u64;
        i += 1;
    }
    assert(w.take(pos as int) =~= w);
    let mut f: Vec<u8> = Vec::new();
    if pos < count as i128 {
        let mut j: usize = pos as usize;
        while j < count
            invariant
                pos <= j <= count,
                0 <= pos,
                count == d@.len(),
                f@ == d@.subrange(pos as int, j as int),
            decreases count - j,
        {
            f.push(d[j]);
            assert(f@ =~= d@.subrange(pos as int, j + 1));
            j += 1;
        }
    }
    assert(f@ =~= fr);
    round_to_u64(whole, &mut f)
}

/// Digits that already write too large a number make the whole too large.
proof fn lemma_whole_too_large(w: Seq<u8>, i: int, a: nat, t: nat)
    requires
        0 <= i <= w.len(),
        digit_number(w.take(i)) > u64::MAX,
        t >= 1,
        a < t,
    ensures
        truncated_nearest(digit_number(w) * t + a, t) == u64::MAX,
{
    assert(w =~= w.take(i) + w.skip(i));
    lemma_digit_number_splits(w.take(i), w.skip(i));
    lemma_pow10_pos(w.skip(i).len());
    let x = digit_number(w.take(i)) as int;
    let p = power_of_ten(w.skip(i).len()) as int;
    assert(x * p >= x) by (nonlinear_arith)
        requires
            x >= 0,
            p >= 1,
    ;
    let num = digit_number(w) * t + a;
    vstd::arithmetic::div_mod::lemma_fundamental_div_mod_converse(
        num as int,
        t as int,
        digit_number(w) as int,
        a as int,
    );
}

/// From ten to the twentieth on, every number but zero is too large.
pub proof fn lemma_huge(d: Seq<u8>, scale: int)
    requires
        scale >= 20,
    ensures
        scaled_to_u64(d, scale) == (if digit_number(d) == 0 {
            0
        } else {
            u64::MAX
        }),
{
    let m = digit_number(d);
    lemma_pow10_adds((scale - 20) as nat, 20);
    lemma_pow10_pos((scale - 20) as nat);
    reveal_with_fuel(power_of_ten, 21);
    let p = power_of_ten(scale as nat) as int;
    let x = power_of_ten((scale - 20) as nat) as int;
    assert(power_of_ten(20) == 0x5_6BC7_5E2D_6310_0000);
    assert(p >= 0x5_6BC7_5E2D_6310_0000) by (nonlinear_arith)
        requires
            p == x * 0x5_6BC7_5E2D_6310_0000,
            x >= 1,
    ;
    if m == 0 {
        lemma_small_whole(0, 0, 1);
        lemma2_to64();
        lemma2_to64_rest();
        assert(0 * p == 0);
    } else {
        assert(m * p > u64::MAX) by (nonlinear_arith)
            requires
                m >= 1,
                p >= 0x5_6BC7_5E2D_6310_0000,
        ;
        assert((m * p) / 1 == m * p);
    }
}

} // verus!
