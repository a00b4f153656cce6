use flvproxy::calendar::{civil_from_days, push_clock, push_date, utc_now};

#[test]
fn civil_from_days_epoch_origin_is_1970_01_01() {
    assert_eq!(civil_from_days(0), (1970, 1, 1));
}

#[test]
fn civil_from_days_day_20089_is_2025_01_01() {
    assert_eq!(civil_from_days(20_089), (2025, 1, 1));
}

#[test]
fn civil_from_days_day_20088_is_2024_12_31() {
    assert_eq!(civil_from_days(20_088), (2024, 12, 31));
}

#[test]
fn every_day_count_has_a_date() {
    assert_eq!(civil_from_days(i64::MAX), (25_252_734_927_768_524, 7, 27));
    assert_eq!(civil_from_days(i64::MIN), (-25_252_734_927_764_585, 6, 7));
}

#[test]
fn civil_from_days_negative_is_pre_epoch() {
    assert_eq!(civil_from_days(-1), (1969, 12, 31));
}

#[test]
fn leap_days_are_counted() {
    assert_eq!(civil_from_days(11_016), (2000, 2, 29));
    assert_eq!(civil_from_days(11_017), (2000, 3, 1));
    assert_eq!(civil_from_days(-25_509), (1900, 2, 28));
    assert_eq!(civil_from_days(-25_508), (1900, 3, 1));
}

#[test]
fn every_day_of_four_centuries_is_another_date() {
    let mut last = civil_from_days(-1);
    for z in 0..146_097 {
        let next = civil_from_days(z);
        assert_ne!(next, last);
        last = next;
    }
    assert_eq!(last, (2369, 12, 31));
}

#[test]
fn time_of_day_is_split() {
    assert_eq!(utc_now(1_735_689_600 + 3_723), (2025, 1, 1, 1, 2, 3));
    assert_eq!(utc_now(-1), (1969, 12, 31, 23, 59, 59));
}

#[test]
fn dates_and_clocks_are_padded() {
    let mut out = String::new();
    push_date(&mut out, 20_089);
    out.push(' ');
    push_clock(&mut out, 3_723_004);
    assert_eq!(out, "2025-01-01 01:02:03.004");
}
