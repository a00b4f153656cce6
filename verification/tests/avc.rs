use flvproxy::avc::{parse_avc_config, split_length_prefixed_nalus, AvcError, AvcPacketType};

#[test]
fn avc_packet_type_decodes_known_values_only() {
    assert_eq!(AvcPacketType::from_byte(0), Some(AvcPacketType::SeqHeader));
    assert_eq!(AvcPacketType::from_byte(1), Some(AvcPacketType::Nalu));
    assert_eq!(AvcPacketType::from_byte(2), Some(AvcPacketType::End));
    assert_eq!(AvcPacketType::from_byte(3), None);
    assert_eq!(AvcPacketType::from_byte(0xFF), None);
}

#[test]
fn split_empty_input_returns_empty_vec() {
    assert_eq!(split_length_prefixed_nalus(&[]), Ok(Vec::new()));
}

#[test]
fn split_zero_length_nalu_is_skipped() {
    let data = [0, 0, 0, 0];
    assert_eq!(split_length_prefixed_nalus(&data), Ok(Vec::new()));
}

#[test]
fn split_truncated_length_prefix_is_truncated_error() {
    let data = [0, 0, 1];
    assert_eq!(split_length_prefixed_nalus(&data), Err(AvcError::Truncated));
}

#[test]
fn split_length_exceeding_remaining_is_truncated_error() {
    let mut data = vec![0, 0, 0, 3];
    data.extend_from_slice(&[0xAA, 0xBB]);
    assert_eq!(split_length_prefixed_nalus(&data), Err(AvcError::Truncated));
}

#[test]
fn split_undoes_join() {
    let data = [0, 0, 0, 2, 0x65, 0x88, 0, 0, 0, 1, 0x41];
    assert_eq!(split_length_prefixed_nalus(&data), Ok(vec![vec![0x65, 0x88], vec![0x41]]));
}

#[test]
fn config_gives_the_parameter_sets() {
    let payload = [
        1, 0x64, 0x00, 0x29, 0xFF, 0xE1, 0, 4, 0x67, 0x64, 0x00, 0x29, 1, 0, 2, 0x68, 0xEE,
    ];
    let config = parse_avc_config(&payload).unwrap();
    assert_eq!(config.sps, vec![0x67, 0x64, 0x00, 0x29]);
    assert_eq!(config.pps, vec![0x68, 0xEE]);
}

#[test]
fn config_that_ends_early_is_refused() {
    assert_eq!(parse_avc_config(&[1, 0x64]), Err(AvcError::Truncated));
}

#[test]
fn an_empty_parameter_set_means_that_none_is_declared() {
    // One SPS of length 0, no PPS.
    assert_eq!(parse_avc_config(&[1, 0, 0, 0, 0xFF, 0xE1, 0, 0, 0]), Err(AvcError::Truncated));
    // No SPS, one PPS of length 0.
    assert_eq!(parse_avc_config(&[1, 0, 0, 0, 0xFF, 0xE0, 1, 0, 0]), Err(AvcError::Truncated));
    // Neither.
    let none = parse_avc_config(&[1, 0, 0, 0, 0xFF, 0xE0, 0]).unwrap();
    assert!(none.sps.is_empty() && none.pps.is_empty());
    // Only the first entry is kept: a later one may be empty.
    let two = parse_avc_config(&[1, 0, 0, 0, 0xFF, 0xE2, 0, 1, 0x67, 0, 0, 0]).unwrap();
    assert_eq!(two.sps, vec![0x67]);
}
