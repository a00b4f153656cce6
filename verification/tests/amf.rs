use flvproxy::amf::{is_metadata_tag, parse_on_metadata, AmfValue, Reader, METADATA_PREAMBLE};
use flvproxy::camera_identity::{from_metadata, CameraIdentity};
use flvproxy::ieee754::Binary32;

fn number(x: f64) -> Vec<u8> {
    let mut out = vec![0x00];
    out.extend_from_slice(&x.to_bits().to_be_bytes());
    out
}

fn key(k: &str) -> Vec<u8> {
    let mut out = (k.len() as u16).to_be_bytes().to_vec();
    out.extend_from_slice(k.as_bytes());
    out
}

fn text(t: &str) -> Vec<u8> {
    let mut out = vec![0x02];
    out.extend_from_slice(&key(t));
    out
}

fn metadata(pairs: &[(&str, Vec<u8>)]) -> Vec<u8> {
    let mut body = METADATA_PREAMBLE.to_vec();
    body.push(0x08);
    body.extend_from_slice(&(pairs.len() as u32).to_be_bytes());
    for (k, v) in pairs {
        body.extend_from_slice(&key(k));
        body.extend_from_slice(v);
    }
    body.extend_from_slice(&[0, 0, 9]);
    body
}

#[test]
fn each_kind_of_value_is_read() {
    let mut bytes = number(1.5);
    bytes.extend_from_slice(&[0x01, 1]);
    bytes.extend_from_slice(&text("hi"));
    bytes.extend_from_slice(&[0x03]);
    bytes.extend_from_slice(&key("k"));
    bytes.extend_from_slice(&[0x01, 0, 0, 0, 9]);
    bytes.extend_from_slice(&[0x0A, 0, 0, 0, 1, 0x01, 1]);
    bytes.extend_from_slice(&[0x0B, 0, 0, 0, 0, 0, 0, 0, 0, 0, 0]);
    bytes.extend_from_slice(&[0x0C, 0, 0, 0, 1, b'x']);
    bytes.extend_from_slice(&[0x09, 0x55]);
    let mut reader = Reader::new(&bytes);
    assert_eq!(reader.read_value(), Some(AmfValue::Number(1.5f64.to_bits())));
    assert_eq!(reader.read_value(), Some(AmfValue::Boolean(true)));
    assert_eq!(reader.read_value(), Some(AmfValue::Text("hi".to_string())));
    assert_eq!(reader.read_value(), Some(AmfValue::Object(vec![("k".to_string(), AmfValue::Boolean(false))])));
    assert_eq!(reader.read_value(), Some(AmfValue::StrictArray(vec![AmfValue::Boolean(true)])));
    assert_eq!(reader.read_value(), Some(AmfValue::Date));
    assert_eq!(reader.read_value(), Some(AmfValue::LongText("x".to_string())));
    assert_eq!(reader.read_value(), Some(AmfValue::ObjectEnd));
    assert_eq!(reader.read_value(), Some(AmfValue::Unknown(0x55)));
    assert_eq!(reader.read_value(), None);
}

#[test]
fn values_cut_short_are_none() {
    assert_eq!(Reader::new(&[0x00, 1, 2]).read_value(), None);
    assert_eq!(Reader::new(&[0x02, 0, 5, b'a']).read_value(), None);
    assert_eq!(Reader::new(&[0x0A, 0, 0, 0, 2, 0x01, 1]).read_value(), None);
}

#[test]
fn texts_that_are_not_utf8_are_repaired() {
    assert_eq!(Reader::new(&[0x02, 0, 2, b'a', 0xFF]).read_value(), Some(AmfValue::Text("a\u{FFFD}".to_string())));
}

#[test]
fn the_camera_tells_size_rate_and_name() {
    let body = metadata(&[
        ("videoWidth", number(2688.0)),
        ("videoHeight", number(1512.7)),
        ("videoFps", number(29.97)),
        ("streamName", text("28704E11B531_0")),
    ]);
    assert!(is_metadata_tag(&body));
    let meta = parse_on_metadata(&body).expect("metadata");
    assert_eq!(meta.width, Some(2688));
    assert_eq!(meta.height, Some(1512));
    assert_eq!(meta.fps, Some(Binary32 { bits: 29.97f32.to_bits() }));
    assert_eq!(meta.stream_name.as_deref(), Some("28704E11B531_0"));
    assert_eq!(
        from_metadata(&meta),
        Some(CameraIdentity { serial: "28704E11B531".to_string(), model: String::new() })
    );
}

#[test]
fn other_script_tags_tell_nothing() {
    assert!(!is_metadata_tag(b""));
    assert!(!is_metadata_tag(&METADATA_PREAMBLE[..12]));
    assert_eq!(parse_on_metadata(b"\x02\x00\x01x"), None);
}

#[test]
fn only_metadata_tags_give_metadata() {
    let mut body = b"\x02\x00\x0AonMetaData".to_vec();
    body.extend_from_slice(&[0x03, 0, 0, 9]);
    assert!(parse_on_metadata(&body).is_some());
    let mut other = body.clone();
    other[3] = b'O';
    assert_eq!(parse_on_metadata(&other), None);
    let mut broken = body.clone();
    broken[3] = 0xFF;
    assert_eq!(parse_on_metadata(&broken), None);
    let mut number = body.clone();
    number[13] = 0x00;
    assert_eq!(parse_on_metadata(&number), None);
}
