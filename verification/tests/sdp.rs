use flvproxy::sdp::{build_sdp, profile_level_id};
use flvproxy::stream_state::CodecParams;

fn codec(sps: Vec<u8>) -> CodecParams {
    CodecParams {
        sps,
        pps: vec![0x68, 0xEE],
        profile_indication: 0x64,
        profile_compat: 0,
        level_indication: 0x28,
        width: None,
        height: None,
        fps: None,
    }
}

#[test]
fn descriptions_are_exact() {
    assert_eq!(
        build_sdp(&codec(vec![0x67, 0x64, 0x00, 0x28]), "10.0.0.5", Some("29.97")),
        "v=0\r\no=- 0 0 IN IP4 10.0.0.5\r\ns=UniFi Camera Stream\r\nt=0 0\r\nm=video 0 RTP/AVP 96\r\na=control:streamid=0\r\na=rtpmap:96 H264/90000\r\na=fmtp:96 packetization-mode=1;profile-level-id=640028;sprop-parameter-sets=Z2QAKA==,aO4=\r\na=framerate:29.97\r\n"
    );
}

#[test]
fn short_parameter_sets_have_a_fallback() {
    assert_eq!(profile_level_id(&[0x67, 0x64, 0x0A]), None);
    assert_eq!(profile_level_id(&[0x67, 0x64, 0x0A, 0xFF]).as_deref(), Some("640AFF"));
    let text = build_sdp(&codec(vec![0x67]), "h", None);
    assert!(text.contains("profile-level-id=42001E;"), "{text}");
    assert!(!text.contains("framerate"), "{text}");
}
