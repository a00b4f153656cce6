use flvproxy::avc::{AvcDecoderConfig, AvcError, NaluFrame};
use flvproxy::flv_parser::{
    detect_and_strip_prefix, parse_header, FlvHeader, FlvParser, ParseError, TagEvent, MAX_TAG_DATA_SIZE, UPFLV_PREFIX,
};
use flvproxy::flv_video::{parse_video_tag, video_tag_kind, IgnoreReason, VideoTagEvent, VideoTagKind};

const CONFIG: [u8; 17] =
    [1, 0x64, 0, 0x28, 0xFF, 0xE1, 0, 4, 0x67, 0x64, 0, 0x28, 1, 0, 2, 0x68, 0xEE];

fn decoded_config() -> AvcDecoderConfig {
    AvcDecoderConfig {
        profile_indication: 0x64,
        profile_compat: 0,
        level_indication: 0x28,
        sps: vec![0x67, 0x64, 0, 0x28],
        pps: vec![0x68, 0xEE],
    }
}

fn tag(kind: u8, ts: u32, body: &[u8]) -> Vec<u8> {
    let n = body.len() as u32;
    let mut out = vec![kind, (n >> 16) as u8, (n >> 8) as u8, n as u8];
    out.extend_from_slice(&[(ts >> 16) as u8, (ts >> 8) as u8, ts as u8, (ts >> 24) as u8, 0, 0, 0]);
    out.extend_from_slice(body);
    out.extend_from_slice(&(n + 11).to_be_bytes());
    out
}

#[test]
fn the_prefix_is_stripped_once() {
    let mut bytes = UPFLV_PREFIX.to_vec();
    bytes.extend_from_slice(b"FLV");
    assert_eq!(detect_and_strip_prefix(&bytes), b"FLV");
    assert_eq!(detect_and_strip_prefix(b"FLV"), b"FLV");
}

#[test]
fn headers_are_read_or_refused() {
    let header = [b'F', b'L', b'V', 1, 5, 0, 0, 0, 9, 0xAA];
    let (rest, told) = parse_header(&header).expect("a header");
    assert_eq!(rest, [0xAA]);
    assert_eq!(told, FlvHeader { version: 1, has_audio: true, has_video: true, header_size: 9 });
    assert_eq!(parse_header(&header[..8]), Err(ParseError::Truncated));
    assert_eq!(parse_header(b"XLV\x01\x05\x00\x00\x00\x09"), Err(ParseError::BadSignature));
    assert_eq!(parse_header(b"FLV\x02\x05\x00\x00\x00\x09"), Err(ParseError::UnsupportedVersion));
}

#[test]
fn tags_are_framed_wherever_the_bytes_are_cut() {
    let mut stream = vec![0, 0, 0, 0];
    stream.extend_from_slice(&tag(0x12, 0, b"meta"));
    stream.extend_from_slice(&tag(0x08, 7, b"a"));
    stream.extend_from_slice(&tag(0x09, 0x0102_0304, b"video"));
    let whole = FlvParser::new().push(&stream).expect("tags");
    assert_eq!(
        whole,
        vec![
            TagEvent::Script { timestamp_ms: 0, body: b"meta".to_vec() },
            TagEvent::Audio { timestamp_ms: 7, body: b"a".to_vec() },
            TagEvent::Video { timestamp_ms: 0x0102_0304, body: b"video".to_vec() },
        ]
    );
    let mut parser = FlvParser::new();
    let mut pieces = Vec::new();
    for byte in &stream {
        pieces.extend(parser.push(&[*byte]).expect("tags"));
    }
    assert_eq!(pieces, whole);
}

#[test]
fn tags_of_the_cameras_own_layout_are_framed() {
    let mut stream = vec![0, 0, 0, 0];
    stream.extend_from_slice(&[0x00, 2, 3, 4, 1, 0, 0, 2, 0, 0, 0, b'h', b'i']);
    stream.extend_from_slice(&[0x00, 0, 0, 7, 0, 0, 0, 0, 0, 0, 0, 9, 9, 9, 9, 9]);
    stream.extend_from_slice(&tag(0x08, 8, b"a"));
    assert_eq!(
        FlvParser::new().push(&stream),
        Ok(vec![
            TagEvent::Video { timestamp_ms: 0x0102_0304, body: b"hi".to_vec() },
            TagEvent::Video { timestamp_ms: 7, body: vec![] },
            TagEvent::Audio { timestamp_ms: 8, body: b"a".to_vec() },
        ])
    );
}

#[test]
fn tags_that_are_too_large_are_refused() {
    let mut stream = vec![0, 0, 0, 0, 0x09, 0x80, 0, 1, 0, 0, 0, 0, 0, 0, 0];
    let mut parser = FlvParser::new();
    let wanted = ParseError::OversizedTag { tag_type: 9, data_size: MAX_TAG_DATA_SIZE + 1, cap: MAX_TAG_DATA_SIZE };
    assert_eq!(parser.push(&stream), Err(wanted));
    stream.push(0);
    assert_eq!(FlvParser::new().push(&stream), Err(wanted));
}

#[test]
fn layouts_are_told_apart_by_the_first_bit() {
    assert_eq!(video_tag_kind(0x17), VideoTagKind::Standard);
    assert_eq!(video_tag_kind(0x90), VideoTagKind::Extended);
}

#[test]
fn both_layouts_carry_the_same() {
    let mut standard = vec![0x17, 0, 0, 0, 0];
    standard.extend_from_slice(&CONFIG);
    let mut extended = vec![0x90, b'a', b'v', b'c', b'1'];
    extended.extend_from_slice(&CONFIG);
    assert_eq!(parse_video_tag(&standard), Ok(VideoTagEvent::Config(decoded_config())));
    assert_eq!(parse_video_tag(&extended), parse_video_tag(&standard));
    let nalus = [0, 0, 0, 2, 0x65, 1];
    let mut frame = vec![0x17, 1, 0, 0, 0];
    frame.extend_from_slice(&nalus);
    let mut coded = vec![0x91, b'a', b'v', b'c', b'1', 0, 0, 0];
    coded.extend_from_slice(&nalus);
    let mut coded_x = vec![0x93, b'a', b'v', b'c', b'1'];
    coded_x.extend_from_slice(&nalus);
    let want = Ok(VideoTagEvent::Frame(NaluFrame { is_keyframe: true, nalus: vec![vec![0x65, 1]] }));
    assert_eq!(parse_video_tag(&frame), want);
    assert_eq!(parse_video_tag(&coded), want);
    assert_eq!(parse_video_tag(&coded_x), want);
}

#[test]
fn other_video_tags_are_named() {
    assert_eq!(parse_video_tag(&[0x17, 2, 0, 0, 0]), Ok(VideoTagEvent::SequenceEnd));
    assert_eq!(parse_video_tag(&[0x92, b'a', b'v', b'c', b'1']), Ok(VideoTagEvent::SequenceEnd));
    assert_eq!(parse_video_tag(&[0x94, b'a', b'v', b'c', b'1']), Ok(VideoTagEvent::Metadata));
    assert_eq!(parse_video_tag(&[0x12]), Err(ParseError::Truncated));
    assert_eq!(parse_video_tag(&[0x12, 0]), Ok(VideoTagEvent::Ignored(IgnoreReason::NotAvcCodec(2))));
    assert_eq!(
        parse_video_tag(&[0x90, b'h', b'v', b'c', b'1']),
        Ok(VideoTagEvent::Ignored(IgnoreReason::NotAvcFourCC(*b"hvc1")))
    );
    assert_eq!(
        parse_video_tag(&[0x95, b'a', b'v', b'c', b'1']),
        Ok(VideoTagEvent::Ignored(IgnoreReason::UnknownPacketType(5)))
    );
    assert_eq!(parse_video_tag(&[]), Err(ParseError::Truncated));
    assert_eq!(parse_video_tag(&[0x17, 0, 0, 0, 0]), Err(ParseError::Truncated));
    let mut bad = vec![0x17, 0, 0, 0, 0, 9];
    bad.extend_from_slice(&CONFIG[1..]);
    assert_eq!(parse_video_tag(&bad), Err(ParseError::Codec(AvcError::BadConfigVersion(9))));
}
