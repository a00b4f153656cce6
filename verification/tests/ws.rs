use flvproxy::http::{extract_header_value, find_terminator, header_value};
use flvproxy::ws::{
    encode_frame, eof_message, extract_websocket_key, on_stall, parse_frame, read_frame, request_subprotocols,
    upgrade_response, websocket_accept, write_frame, Frame, FrameRead, Opcode, StallAction, TapStep, TapTrouble,
    UpgradeTap, WsError, WsFrame, WsRead, MAX_FRAME_PAYLOAD,
};

const REQUEST: &str = "GET /chat HTTP/1.1\r\nHost: server\r\nSec-WebSocket-Key: dGhlIHNhbXBsZSBub25jZQ==\r\nSec-WebSocket-Protocol: chat, secure_transfer\r\nSec-WebSocket-Version: 13\r\n\r\n";

#[test]
fn the_accept_value_is_the_known_one() {
    assert_eq!(websocket_accept("dGhlIHNhbXBsZSBub25jZQ=="), "s3pPLMBiTxaQ9kYGzzhZRbK+xOo=");
}

#[test]
fn the_upgrade_is_answered_exactly() {
    assert_eq!(
        upgrade_response(REQUEST).as_deref(),
        Some("HTTP/1.1 101 Switching Protocols\r\nUpgrade: websocket\r\nConnection: Upgrade\r\nSec-WebSocket-Accept: s3pPLMBiTxaQ9kYGzzhZRbK+xOo=\r\nSec-WebSocket-Protocol: secure_transfer\r\n\r\n")
    );
    assert_eq!(extract_websocket_key(REQUEST).as_deref(), Some("dGhlIHNhbXBsZSBub25jZQ=="));
    let offered: Vec<String> = request_subprotocols(REQUEST).into_iter().map(|p| p.into_iter().collect()).collect();
    assert_eq!(offered, ["chat", "secure_transfer"]);
    assert_eq!(upgrade_response("GET / HTTP/1.1\r\n\r\n"), None);
}

#[test]
fn frames_of_every_size_are_read_back() {
    for size in [0usize, 125, 126, 65_535, 65_536] {
        let payload: Vec<u8> = (0..size).map(|i| i as u8).collect();
        let bytes = write_frame(2, true, &payload);
        let read = read_frame(&bytes);
        assert_eq!(read, FrameRead::Whole(Frame { fin: true, opcode: 2, payload: payload.clone() }, bytes.len()));
        assert_eq!(read_frame(&bytes[..bytes.len() - 1]), FrameRead::Incomplete);
        let frame = WsFrame { fin: true, opcode: Opcode::Binary, payload };
        assert_eq!(encode_frame(&frame), bytes);
        assert_eq!(parse_frame(&bytes), Ok(WsRead::Whole(frame, bytes.len())));
    }
    assert_eq!(write_frame(0x1, true, b"Hi"), [0x81, 2, b'H', b'i']);
}

#[test]
fn masks_are_taken_off() {
    let bytes = [0x81, 0x85, 0x37, 0xfa, 0x21, 0x3d, 0x7f, 0x9f, 0x4d, 0x51, 0x58, 0x99];
    let FrameRead::Whole(frame, used) = read_frame(&bytes) else {
        panic!("a whole frame");
    };
    assert_eq!(frame.payload, b"Hello");
    assert_eq!(used, 11);
}

#[test]
fn frames_can_be_refused() {
    let mut huge = vec![0x82, 127];
    huge.extend_from_slice(&(MAX_FRAME_PAYLOAD + 1).to_be_bytes());
    assert_eq!(read_frame(&huge), FrameRead::TooLarge(MAX_FRAME_PAYLOAD + 1));
    assert_eq!(parse_frame(&huge), Err(WsError::TooLarge(MAX_FRAME_PAYLOAD + 1)));
    assert_eq!(parse_frame(&[0x83, 0]), Err(WsError::ReservedOpcode(3)));
    assert_eq!(parse_frame(&[0x82]), Ok(WsRead::Incomplete));
}

#[test]
fn a_tap_finds_the_request() {
    let mut tap = UpgradeTap::new(false);
    assert!(tap.is_given_up(true));
    assert!(!tap.is_given_up(false));
    let (a, b) = REQUEST.as_bytes().split_at(30);
    assert_eq!(tap.on_bytes(a), TapStep::More);
    assert!(!tap.is_given_up(true));
    let TapStep::Upgraded { request, response, leftover } = tap.on_bytes(&[b, b"xyz"].concat()) else {
        panic!("the request is there");
    };
    assert_eq!(request, REQUEST.as_bytes());
    assert_eq!(Some(response), upgrade_response(REQUEST));
    assert_eq!(leftover, b"xyz");
}

#[test]
fn a_tap_gives_up() {
    assert_eq!(UpgradeTap::new(true).on_bytes(b"\xFF\r\n\r\n"), TapStep::Trouble(TapTrouble::NotText));
    let mut once = UpgradeTap::new(true);
    assert_eq!(once.on_bytes(b"GET /\r\n\r\n"), TapStep::Trouble(TapTrouble::NoKey));
    assert_eq!(once.on_bytes(REQUEST.as_bytes()), TapStep::More);
    let mut again = UpgradeTap::new(false);
    assert_eq!(again.on_bytes(b"GET /\r\n\r\n"), TapStep::Trouble(TapTrouble::NoKey));
    assert_eq!(again.on_bytes(b""), TapStep::Trouble(TapTrouble::NoKey));
    let old = REQUEST.replace("Version: 13", "Version: 8");
    assert_eq!(UpgradeTap::new(false).on_bytes(old.as_bytes()), TapStep::Trouble(TapTrouble::OtherVersion));
    assert!(matches!(UpgradeTap::new(true).on_bytes(old.as_bytes()), TapStep::Upgraded { .. }));
    assert_eq!(UpgradeTap::new(false).on_bytes(&vec![b'a'; 8193]), TapStep::GaveUp { len: 8193, trouble: None });
    let mut keyless = b"GET /\r\n\r\n".to_vec();
    keyless.resize(8193, b'a');
    assert_eq!(
        UpgradeTap::new(false).on_bytes(&keyless),
        TapStep::GaveUp { len: 8193, trouble: Some(TapTrouble::NoKey) }
    );
}

#[test]
fn stalls_and_ends_are_told_apart() {
    assert_eq!(on_stall(true, true), StallAction::Shutdown);
    assert_eq!(on_stall(false, true), StallAction::TimedOut);
    assert_eq!(on_stall(false, false), StallAction::Retry);
    assert_eq!(eof_message(&[]), None);
    assert_eq!(eof_message(&[0x82]), Some("peer closed mid-frame"));
    assert_eq!(eof_message(&[0x82, 126]), Some("len126 eof"));
    assert_eq!(eof_message(&[0x82, 127]), Some("len127 eof"));
    assert_eq!(eof_message(&[0x82, 0x81]), Some("mask eof"));
    assert_eq!(eof_message(&[0x82, 1]), Some("payload eof"));
    assert_eq!(eof_message(&[0x82, 2, 0]), Some("peer closed mid-frame"));
}

#[test]
fn headers_are_found_whatever_their_case() {
    assert_eq!(header_value(REQUEST, "HOST").as_deref(), Some("server"));
    assert_eq!(header_value(REQUEST, "missing"), None);
    assert_eq!(extract_header_value(b"A: b\r\nC:  d \r\n\r\n", "c").as_deref(), Some("d"));
    assert_eq!(extract_header_value(b"A: \xFF\r\n\r\n", "a"), None);
    assert_eq!(find_terminator(b"ab\r\n\r\ncd"), Some(2));
    assert_eq!(find_terminator(b"ab\r\n\r"), None);
}
