//! Laws of the numbers that look random, and of what is made with them.

use crate::cert_gen::{container_name, subject_cn, CertGenError};
use crate::onvif_discovery::{
    fill_random, hex_text, product32, spread, state_after, sum32, uuid_bytes, uuid_text, DiscoveryConfig,
    GOLDEN_RATIO_32,
};
use crate::text::{contains_text, decimal, hex2_lower};
use crate::text_laws::{lemma_contains_itself, lemma_contains_sum};
use vstd::prelude::*;

verus! {

/// Bytes come one after the other: more of them begin with the fewer, and behind the first they are those
/// of a seed one golden ratio further.
pub proof fn law_bytes_come_one_after_the_other(
    seed: u32,
    next: u32,
    count: usize,
    more: usize,
    few: Vec<u8>,
    many: Vec<u8>,
    shifted: Vec<u8>,
)
    requires
        0 < count <= more,
        next == (seed + 0x9E37_79B9) % 0x1_0000_0000,
        call_ensures(fill_random, (seed, count), few),
        call_ensures(fill_random, (seed, more), many),
        call_ensures(fill_random, (next, (count - 1) as usize), shifted),
    ensures
        few@.len() == count,
        many@.take(count as int) == few@,
        few@.skip(1) == shifted@,
{
    assert(many@.take(count as int) =~= few@);
    assert forall|i: int| 0 <= i < count - 1 implies few@.skip(1)[i] == shifted@[i] by {
        lemma_state_moves_on(seed, next, (i + 1) as nat);
    }
    assert(few@.skip(1) =~= shifted@);
}

proof fn lemma_state_moves_on(seed: u32, next: u32, k: nat)
    requires
        next == sum32(seed, GOLDEN_RATIO_32),
    ensures
        state_after(next, k) == state_after(seed, k + 1),
    decreases k,
{
    reveal_with_fuel(state_after, 2);
    if k > 0 {
        lemma_state_moves_on(seed, next, (k - 1) as nat);
    }
}

/// Spreading loses nothing: different numbers stay different.
pub proof fn law_spreading_loses_nothing(a: u32, b: u32)
    ensures
        spread(a) == spread(b) ==> a == b,
{
    let a1 = product32(a ^ (a >> 16), 0x7FEB_A7F3);
    let b1 = product32(b ^ (b >> 16), 0x7FEB_A7F3);
    let a2 = product32(a1 ^ (a1 >> 15), 0x846C_A68B);
    let b2 = product32(b1 ^ (b1 >> 15), 0x846C_A68B);
    if spread(a) == spread(b) {
        lemma_shifted_16(a2, b2);
        lemma_product_cancels(a1 ^ (a1 >> 15), 0x846C_A68B, 0x4302_1123);
        lemma_product_cancels(b1 ^ (b1 >> 15), 0x846C_A68B, 0x4302_1123);
        lemma_shifted_15(a1, b1);
        lemma_product_cancels(a ^ (a >> 16), 0x7FEB_A7F3, 0x0604_493B);
        lemma_product_cancels(b ^ (b >> 16), 0x7FEB_A7F3, 0x0604_493B);
        lemma_shifted_16(a, b);
    }
}

proof fn lemma_shifted_16(a: u32, b: u32)
    by (bit_vector)
    ensures
        a ^ (a >> 16) == b ^ (b >> 16) ==> a == b,
{
}

proof fn lemma_shifted_15(a: u32, b: u32)
    by (bit_vector)
    ensures
        a ^ (a >> 15) == b ^ (b >> 15) ==> a == b,
{
}

/// Multiplying by a number can be undone by multiplying by its inverse.
proof fn lemma_product_cancels(a: u32, factor: u32, inverse: int)
    requires
        (factor * inverse) % 0x1_0000_0000 == 1,
    ensures
        (product32(a, factor) as int * inverse) % 0x1_0000_0000 == a,
{
    let m: int = 0x1_0000_0000;
    let g = factor as int;
    let x = a as int;
    assert(product32(a, factor) as int == (x * g) % m);
    vstd::arithmetic::div_mod::lemma_mul_mod_noop_left(x * g, inverse, m);
    assert((x * g) * inverse == x * (g * inverse)) by (nonlinear_arith);
    vstd::arithmetic::div_mod::lemma_mul_mod_noop_right(x, g * inverse, m);
    vstd::arithmetic::div_mod::lemma_small_mod(a as nat, m as nat);
}

/// The number that a hexadecimal digit in lower case stands for.
pub open spec fn lower_digit(c: char) -> int {
    if '0' <= c <= '9' {
        c as int - '0' as int
    } else if 'a' <= c <= 'f' {
        c as int - 'a' as int + 10
    } else {
        -1
    }
}

proof fn lemma_hex_at(bytes: Seq<u8>, j: int)
    requires
        0 <= j < bytes.len(),
    ensures
        hex_text(bytes).len() == 2 * bytes.len(),
        lower_digit(hex_text(bytes)[2 * j]) * 16 + lower_digit(hex_text(bytes)[2 * j + 1]) == bytes[j],
    decreases bytes.len(),
{
    let head = bytes.drop_last();
    if head.len() > 0 {
        lemma_hex_at(head, if j < head.len() {
            j
        } else {
            0
        });
    } else {
        assert(hex_text(head) =~= Seq::empty());
    }
    let d = hex2_lower(bytes.last());
    assert(lower_digit(d[0]) * 16 + lower_digit(d[1]) == bytes.last());
}

/// A device's address shows all sixteen of its bytes in order, two digits each, with a dash behind the
/// fourth, the sixth, the eighth and the tenth; of two of them some bits are fixed.
pub proof fn law_address_shows_its_bytes(random: Seq<u8>, i: int)
    requires
        random.len() == 16,
        0 <= i < 16,
    ensures
        ({
            let text = uuid_text(uuid_bytes(random));
            let dashes = if i < 4 {
                0int
            } else if i < 6 {
                1
            } else if i < 8 {
                2
            } else if i < 10 {
                3
            } else {
                4
            };
            let at = 2 * i + dashes;
            lower_digit(text[at]) * 16 + lower_digit(text[at + 1]) == (if i == 6 {
                0x40 + random[6] % 16
            } else if i == 8 {
                0x80 + random[8] % 64
            } else {
                random[i] as int
            })
        }),
{
    let b = uuid_bytes(random);
    reveal_strlit("-");
    let (from, to): (int, int) = if i < 4 {
        (0, 4)
    } else if i < 6 {
        (4, 6)
    } else if i < 8 {
        (6, 8)
    } else if i < 10 {
        (8, 10)
    } else {
        (10, 16)
    };
    lemma_hex_at(b.subrange(0, 4), 0);
    lemma_hex_at(b.subrange(4, 6), 0);
    lemma_hex_at(b.subrange(6, 8), 0);
    lemma_hex_at(b.subrange(8, 10), 0);
    lemma_hex_at(b.subrange(10, 16), 0);
    lemma_hex_at(b.subrange(from, to), i - from);
    assert(b.subrange(from, to)[i - from] == b[i]);
}

/// A device keeps the address that it is given, and has the one of its seed whether or not it is bound to
/// an interface.
pub proof fn law_device_keeps_what_it_is_given(
    xaddr: String,
    iface: [u8; 4],
    seed: u32,
    r: DiscoveryConfig,
    s: DiscoveryConfig,
)
    requires
        call_ensures(DiscoveryConfig::new, (xaddr, seed), r),
        call_ensures(DiscoveryConfig::with_iface, (xaddr, iface, seed), s),
    ensures
        r.xaddr@ == xaddr@ && s.xaddr@ == xaddr@,
        r.device_addr@ == s.device_addr@,
        r.multicast_iface is None,
        s.multicast_iface == Some(iface),
{
}

/// A certificate is made out to its host, and its key container is named after host and moment.
pub proof fn law_certificate_names_the_host(hostname: &str, nanos: u64, subject: String, container: String)
    requires
        call_ensures(subject_cn, (hostname,), subject),
        call_ensures(container_name, (hostname, nanos), container),
    ensures
        subject@ == "CN="@ + hostname@,
        contains_text(container@, hostname@ + "_"@ + decimal(nanos as nat)),
{
    let word = hostname@ + "_"@ + decimal(nanos as nat);
    lemma_contains_itself(word);
    lemma_contains_sum("flvproxy_cert_"@, word, word);
    assert(container@ =~= "flvproxy_cert_"@ + word);
}

/// A failure to make a certificate is told with the call that failed and the system's words.
pub proof fn law_certificate_failures_are_told(e: CertGenError, r: String)
    requires
        call_ensures(CertGenError::message, (&e,), r),
    ensures
        e matches CertGenError::Call(call, why) ==> contains_text(r@, call@ + ": "@ + why@),
        e matches CertGenError::Write(why) ==> contains_text(r@, why@),
{
    match e {
        CertGenError::Call(call, why) => {
            let word = call@ + ": "@ + why@;
            lemma_contains_itself(word);
            lemma_contains_sum("CertGen/"@, word, word);
            assert(r@ =~= "CertGen/"@ + word);
        },
        CertGenError::Write(why) => {
            lemma_contains_itself(why@);
            lemma_contains_sum("CertGen/write: "@, why@, why@);
        },
        _ => {},
    }
}

} // verus!
