use flvproxy::camera_identity::serial_from_stream_name;

#[test]
fn serial_from_typical_stream_name_strips_suffix() {
    assert_eq!(serial_from_stream_name(Some("28704E11B531_0")), Some("28704E11B531".to_string()));
}

#[test]
fn serial_from_stream_name_handles_none_and_empty() {
    assert_eq!(serial_from_stream_name(None), None);
    assert_eq!(serial_from_stream_name(Some("")), None);
    assert_eq!(serial_from_stream_name(Some("   ")), None);
}

#[test]
fn serial_from_stream_name_without_underscore_is_returned_verbatim() {
    assert_eq!(serial_from_stream_name(Some("nomac")), Some("nomac".to_string()));
}

#[test]
fn serial_from_stream_name_rejects_empty_halves() {
    assert_eq!(serial_from_stream_name(Some("_0")), None);
    assert_eq!(serial_from_stream_name(Some("MAC_")), Some("MAC".to_string()));
}

#[test]
fn only_the_last_part_of_a_stream_name_is_cut() {
    assert_eq!(serial_from_stream_name(Some(" A_B_1 ")), Some("A_B".to_string()));
}
