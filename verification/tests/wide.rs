use flvproxy::wide::{to_wide, wide_to_string};

#[test]
fn wide_to_wide_ascii_appends_nul() {
    assert_eq!(to_wide("abc"), vec![b'a' as u16, b'b' as u16, b'c' as u16, 0]);
}

#[test]
fn wide_to_wide_empty_is_just_nul() {
    assert_eq!(to_wide(""), vec![0]);
}

#[test]
fn to_wide_non_ascii_round_trips() {
    let s = "héllo€";
    let wide = to_wide(s);
    assert_eq!(*wide.last().unwrap(), 0, "must be NUL-terminated");
    let without_nul = &wide[..wide.len() - 1];
    assert_eq!(String::from_utf16_lossy(without_nul), s, "round-trip must preserve non-ASCII");
}

#[test]
fn wide_to_string_strips_trailing_nul() {
    assert_eq!(wide_to_string(&to_wide("NT SERVICE\\flvproxy")), "NT SERVICE\\flvproxy");
    assert_eq!(wide_to_string(&to_wide("")), "");
    assert_eq!(wide_to_string(&[0u16]), "");
    assert_eq!(wide_to_string(&[]), "");
}

#[test]
fn pairs_of_units_are_one_character() {
    let s = "a\u{1F600}\u{10FFFF}\u{FFFF}";
    assert_eq!(to_wide(s)[..5], [0x61, 0xD83D, 0xDE00, 0xDBFF, 0xDFFF]);
    assert_eq!(wide_to_string(&to_wide(s)), s);
    assert_eq!(wide_to_string(&[0xD83D, 0x61, 0]), String::from_utf16_lossy(&[0xD83D, 0x61]));
}
