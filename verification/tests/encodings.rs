use flvproxy::base64::base64_encode;
use flvproxy::decimal::scaled_digits_to_u64;
use flvproxy::ieee754::{binary64_to_binary32, binary64_to_u32, Binary32};
use flvproxy::sha1::sha1;
use flvproxy::text::{contains, parse_unsigned};
use flvproxy::xml::xml_escape;

#[test]
fn base64_pads_to_groups_of_four() {
    assert_eq!(base64_encode(b""), "");
    assert_eq!(base64_encode(b"f"), "Zg==");
    assert_eq!(base64_encode(b"fo"), "Zm8=");
    assert_eq!(base64_encode(b"foo"), "Zm9v");
    assert_eq!(base64_encode(&[0xFB, 0xFF, 0xFE]), "+//+");
}

#[test]
fn digests_are_the_known_ones() {
    let hex = |data: &[u8]| sha1(data).iter().map(|b| format!("{b:02x}")).collect::<String>();
    assert_eq!(hex(b""), "da39a3ee5e6b4b0d3255bfef95601890afd80709");
    assert_eq!(hex(b"abc"), "a9993e364706816aba3e25717850c26c9cd0d89d");
    assert_eq!(
        hex(b"abcdbcdecdefdefgefghfghighijhijkijkljklmklmnlmnomnopnopq"),
        "84983e441c3bd26ebaae4aa1f95129e5e54670f1"
    );
}

#[test]
fn doubles_become_whole_numbers_as_a_cast_does() {
    for x in [0.0f64, -0.0, 0.99, 1.0, 24.9, -3.0, 1920.0, 4294967295.0, 4294967296.0, 1e300, f64::INFINITY, f64::NAN, f64::MIN_POSITIVE] {
        assert_eq!(binary64_to_u32(x.to_bits()), x as u32, "{x}");
    }
    for x in [0.0f32, 0.5, 29.97, -1.0, 4.0e9, 5.0e9, f32::INFINITY, f32::NAN] {
        assert_eq!(Binary32 { bits: x.to_bits() }.to_u32(), x as u32, "{x}");
    }
}

#[test]
fn doubles_become_singles_as_a_cast_does() {
    for x in [0.0f64, -0.0, 1.0, 29.97, -29.97, 1.0 / 3.0, 1e-40, -1e-45, 1e-46, 3.5e38, 3.4028235677973366e38, 1e300, f64::INFINITY, f64::NEG_INFINITY, 16777217.0, 16777219.0, f64::MIN_POSITIVE] {
        assert_eq!(binary64_to_binary32(x.to_bits()).bits, (x as f32).to_bits(), "{x}");
    }
}

#[test]
fn digits_become_numbers_as_a_cast_of_a_double_does() {
    assert_eq!(scaled_digits_to_u64(&vec![1, 5], -1), 1);
    assert_eq!(scaled_digits_to_u64(&vec![1, 5], 2), 1500);
    assert_eq!(scaled_digits_to_u64(&vec![9, 0, 0, 7, 1, 9, 9, 2, 5, 4, 7, 4, 0, 9, 9, 3], 0), 9_007_199_254_740_993.0f64 as u64);
    assert_eq!(scaled_digits_to_u64(&vec![9], 400), u64::MAX);
    assert_eq!(scaled_digits_to_u64(&vec![0], 400), 0);
}

#[test]
fn texts_are_searched_and_read() {
    assert!(contains("abcabd", "abd"));
    assert!(!contains("abcab", "abd"));
    assert!(contains("", ""));
    assert_eq!(parse_unsigned(&['4', '2'], 100), Some(42));
    assert_eq!(parse_unsigned(&['+', '4'], 100), Some(4));
    assert_eq!(parse_unsigned(&['1', '0', '1'], 100), None);
    assert_eq!(parse_unsigned(&[], 100), None);
    assert_eq!(parse_unsigned(&['+'], 100), None);
    assert_eq!(parse_unsigned(&['1', ' '], 100), None);
}

#[test]
fn reading_undoes_escaping() {
    let s = "a<b>&\"'\u{e9}&amp;";
    let escaped = xml_escape(s);
    assert_eq!(escaped, "a&lt;b&gt;&amp;&quot;&apos;\u{e9}&amp;amp;");
    let back = escaped.replace("&lt;", "<").replace("&gt;", ">").replace("&quot;", "\"").replace("&apos;", "'").replace("&amp;", "&");
    assert_eq!(back, s);
}
