use flvproxy::rtp::{rtp_header, RtpPacketizer, RtpSessionConfig};
use flvproxy::rtsp_pump::{
    drain_client_interleaved_frames, interleaved_frame, needs_pacing, paced_packets, pump_frame_into, pump_step,
    seq_from, session_seed, splitmix64, ssrc_from, PumpAction, VecSink,
};
use flvproxy::stream_state::{Frame, StreamState};

#[test]
fn rtp_header_lays_out_fields_big_endian() {
    let h = rtp_header(false, 96, 0x1234, 0xAABBCCDD, 0x01020304);
    assert_eq!(h, [0x80, 0x60, 0x12, 0x34, 0xAA, 0xBB, 0xCC, 0xDD, 0x01, 0x02, 0x03, 0x04]);
}

#[test]
fn rtp_header_sets_marker_bit_in_byte_one() {
    let no_marker = rtp_header(false, 96, 0, 0, 0);
    let marker = rtp_header(true, 96, 0, 0, 0);
    assert_eq!(no_marker[1], 0x60);
    assert_eq!(marker[1], 0xE0);
}

fn frame(nalus: Vec<Vec<u8>>) -> Frame {
    Frame { is_keyframe: true, timestamp_ms: 2, nalus }
}

#[test]
fn small_units_go_out_whole_and_the_last_is_marked() {
    let mut packetizer = RtpPacketizer::new(7, 0xFFFF);
    let packets = packetizer.packetize_frame(&frame(vec![vec![0x67, 1], vec![0x65, 2]]));
    assert_eq!(packets.len(), 2);
    assert_eq!(packets[0], [&rtp_header(false, 96, 0xFFFF, 180, 7)[..], &[0x67, 1]].concat());
    assert_eq!(packets[1], [&rtp_header(true, 96, 0, 180, 7)[..], &[0x65, 2]].concat());
}

#[test]
fn large_units_are_cut_and_can_be_put_together() {
    let mut nalu = vec![0x65u8];
    nalu.extend((0..3000).map(|i| i as u8));
    let mut packetizer = RtpPacketizer::with_config(RtpSessionConfig { ssrc: 1, start_seq: 10, start_ts_offset: 1000 });
    let packets = packetizer.packetize_frame(&frame(vec![nalu.clone()]));
    assert_eq!(packets.len(), 3);
    assert_eq!(packets[0][..14], [&rtp_header(false, 96, 10, 1180, 1)[..], &[0x7C, 0x85]].concat());
    assert_eq!(packets[1][12..14], [0x7C, 0x05]);
    assert_eq!(packets[2][12..14], [0x7C, 0x45]);
    assert_eq!(packets[2][1] & 0x80, 0x80);
    assert!(packets.iter().all(|p| p.len() <= 1412));
    let mut back = vec![(packets[0][12] & 0xE0) | (packets[0][13] & 0x1F)];
    for p in &packets {
        back.extend_from_slice(&p[14..]);
    }
    assert_eq!(back, nalu);
}

#[test]
fn a_sink_gets_what_the_packetizer_makes() {
    let f = frame(vec![vec![0x65; 5000]]);
    let mut sink = VecSink::new();
    pump_frame_into(&mut sink, &mut RtpPacketizer::new(1, 1), &f).expect("a sink in memory takes all");
    assert_eq!(sink.packets().len(), 4);
    assert_eq!(sink.into_packets(), RtpPacketizer::new(1, 1).packetize_frame(&f));
}

#[test]
fn large_frames_are_paced() {
    assert!(!needs_pacing(&frame(vec![vec![0; 65_536]])));
    let big = frame(vec![vec![0; 65_536], vec![0]]);
    assert!(needs_pacing(&big));
    let paced = paced_packets(&mut RtpPacketizer::new(1, 1), &big);
    let bytes: Vec<Vec<u8>> = paced.iter().map(|p| p.bytes.clone()).collect();
    assert_eq!(bytes, RtpPacketizer::new(1, 1).packetize_frame(&big));
    let pauses: Vec<usize> = paced.iter().enumerate().filter(|(_, p)| p.pause).map(|(i, _)| i + 1).collect();
    assert_eq!(pauses, vec![35]);
    assert!(paced_packets(&mut RtpPacketizer::new(1, 1), &frame(vec![vec![0; 9]])).iter().all(|p| !p.pause));
}

#[test]
fn the_pump_follows_the_channel() {
    let mut hub = StreamState::new();
    let id = hub.add_client();
    let mut packetizer = RtpPacketizer::new(1, 1);
    assert_eq!(pump_step(&mut hub, &mut packetizer, id), PumpAction::Wait);
    hub.publish_frame(frame(vec![vec![0x65, 9]]));
    assert!(matches!(pump_step(&mut hub, &mut packetizer, id), PumpAction::Send(p) if p.len() == 1));
    hub.remove_client(id);
    assert_eq!(pump_step(&mut hub, &mut packetizer, id), PumpAction::Stop);
}

#[test]
fn packets_among_requests_are_drained() {
    let framed = interleaved_frame(2, &[9, 8, 7]).expect("fits");
    assert_eq!(framed, [b'$', 2, 0, 3, 9, 8, 7]);
    assert_eq!(interleaved_frame(0, &vec![0; 65_536]), None);
    let mut buf = framed.clone();
    buf.extend_from_slice(&framed);
    buf.extend_from_slice(b"OPTIONS");
    drain_client_interleaved_frames(&mut buf);
    assert_eq!(buf, b"OPTIONS");
    let mut part = framed[..6].to_vec();
    drain_client_interleaved_frames(&mut part);
    assert_eq!(part, framed[..6]);
}

#[test]
fn seeds_differ_and_mix() {
    assert_ne!(session_seed(5, 1), session_seed(5, 2));
    assert_eq!(session_seed(5, 0), 5);
    let mut z = 1u64.wrapping_add(14_426_950_408_889_634_077);
    z = (z ^ (z >> 30)).wrapping_mul(6_364_136_223_846_793_005);
    z = (z ^ (z >> 27)).wrapping_mul(6_364_136_223_846_793_005);
    z ^= z >> 31;
    assert_eq!(splitmix64(1), z);
    assert_eq!(ssrc_from(1), (z >> 32) as u32);
    assert_eq!(seq_from(1), (z >> 16) as u16);
}
