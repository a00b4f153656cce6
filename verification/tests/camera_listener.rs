use flvproxy::avc::AvcError;
use flvproxy::camera_identity::CameraIdentity;
use flvproxy::camera_listener::{CameraPipeline, Notice};
use flvproxy::flv_parser::{ParseError, UPFLV_PREFIX};
use flvproxy::ieee754::Binary32;
use flvproxy::stream_state::{ClientId, Frame, Received, StreamState, CLIENT_CHANNEL_CAPACITY};

const CONFIG: [u8; 17] =
    [1, 0x64, 0, 0x28, 0xFF, 0xE1, 0, 4, 0x67, 0x64, 0, 0x28, 1, 0, 2, 0x68, 0xEE];

fn tag(kind: u8, ts: u32, body: &[u8]) -> Vec<u8> {
    let n = body.len() as u32;
    let mut out = vec![kind, (n >> 16) as u8, (n >> 8) as u8, n as u8];
    out.extend_from_slice(&[(ts >> 16) as u8, (ts >> 8) as u8, ts as u8, (ts >> 24) as u8, 0, 0, 0]);
    out.extend_from_slice(body);
    out.extend_from_slice(&(n + 11).to_be_bytes());
    out
}

fn metadata() -> Vec<u8> {
    let mut body = vec![0x02, 0, 10];
    body.extend_from_slice(b"onMetaData");
    body.extend_from_slice(&[0x08, 0, 0, 0, 2]);
    body.extend_from_slice(&[0, 8]);
    body.extend_from_slice(b"videoFps");
    body.push(0);
    body.extend_from_slice(&15.0f64.to_bits().to_be_bytes());
    body.extend_from_slice(&[0, 10]);
    body.extend_from_slice(b"streamName");
    body.extend_from_slice(&[0x02, 0, 4]);
    body.extend_from_slice(b"AB_0");
    body.extend_from_slice(&[0, 0, 9]);
    body
}

fn stream() -> Vec<u8> {
    let mut out = UPFLV_PREFIX.to_vec();
    out.extend_from_slice(&[b'F', b'L', b'V', 1, 1, 0, 0, 0, 9, 0, 0, 0, 0]);
    out.extend_from_slice(&tag(0x12, 0, &metadata()));
    let mut config = vec![0x17, 0, 0, 0, 0];
    config.extend_from_slice(&CONFIG);
    out.extend_from_slice(&tag(0x09, 0, &config));
    out.extend_from_slice(&tag(0x09, 40, &[0x17, 1, 0, 0, 0, 0, 0, 0, 1, 0x65]));
    out.extend_from_slice(&tag(0x09, 80, &[0x27, 1, 0, 0, 0, 0, 0, 0, 1, 0x41]));
    out.extend_from_slice(&tag(0x09, 90, &[0x17, 1, 0, 0]));
    out.extend_from_slice(&tag(0x09, 91, &[0x17, 0, 0, 0, 0, 9, 0, 0, 0, 0, 0]));
    out
}

#[test]
fn a_stream_is_published_in_any_pieces() {
    let bytes = stream();
    for size in [1, 7, bytes.len()] {
        let mut hub = StreamState::new();
        let id = hub.add_client();
        let mut pipeline = CameraPipeline::new();
        let mut notices = Vec::new();
        for chunk in bytes.chunks(size) {
            assert!(!pipeline.feed(chunk, &mut hub, &mut notices));
        }
        assert_eq!(pipeline.keyframes(), 1);
        assert_eq!(pipeline.interframes(), 1);
        assert_eq!(notices, vec![Notice::VideoTag(ParseError::Codec(AvcError::BadConfigVersion(9)))]);
        let codec = hub.codec().expect("a configuration");
        assert_eq!(codec.sps, vec![0x67, 0x64, 0, 0x28]);
        assert_eq!(codec.fps, Some(Binary32 { bits: 15.0f32.to_bits() }));
        assert_eq!(codec.width, None);
        assert_eq!(hub.camera_identity(), Some(CameraIdentity { serial: "AB".to_string(), model: String::new() }));
        assert_eq!(
            hub.receive(id),
            Received::Frame(Frame { is_keyframe: true, timestamp_ms: 40, nalus: vec![vec![0x65]] })
        );
        assert_eq!(
            hub.receive(id),
            Received::Frame(Frame { is_keyframe: false, timestamp_ms: 80, nalus: vec![vec![0x41]] })
        );
        assert_eq!(hub.receive(id), Received::Empty);
    }
}

#[test]
fn strangers_are_shown_the_door() {
    let mut hub = StreamState::new();
    let mut notices = Vec::new();
    assert!(CameraPipeline::new().feed(b"GET / HTTP/1.1\r\n", &mut hub, &mut notices));
    assert_eq!(notices, vec![Notice::Header(ParseError::BadSignature)]);
    let mut pipeline = CameraPipeline::new();
    let mut told = Vec::new();
    let mut bytes = vec![b'F', b'L', b'V', 1, 1, 0, 0, 0, 9, 0, 0, 0, 0];
    bytes.extend_from_slice(&[0x09, 0xFF, 0xFF, 0xFF, 0, 0, 0, 0, 0, 0, 0]);
    assert!(!pipeline.feed(&bytes, &mut hub, &mut told), "framing starts over");
    assert!(matches!(told[..], [Notice::Framing(ParseError::OversizedTag { .. })]));
    let mut again = vec![0, 0, 0, 0];
    again.extend_from_slice(&tag(0x09, 5, &[0x17, 1, 0, 0, 0, 0, 0, 0, 1, 0x65]));
    assert!(!pipeline.feed(&again, &mut hub, &mut told));
    assert_eq!(pipeline.keyframes(), 1);
}

#[test]
fn clients_that_fall_behind_are_reported() {
    let mut hub = StreamState::new();
    let id = hub.add_client();
    let mut pipeline = CameraPipeline::new();
    let mut notices = Vec::new();
    pipeline.feed(&[b'F', b'L', b'V', 1, 1, 0, 0, 0, 9, 0, 0, 0, 0], &mut hub, &mut notices);
    for i in 0..=CLIENT_CHANNEL_CAPACITY as u32 {
        pipeline.feed(&tag(0x09, i, &[0x27, 1, 0, 0, 0, 0, 0, 0, 1, 0x41]), &mut hub, &mut notices);
    }
    assert_eq!(notices, vec![Notice::ClientDropped(id)]);
    assert_eq!(id, ClientId(1));
    assert_eq!(hub.client_count(), 0);
}
