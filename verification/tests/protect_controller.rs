use flvproxy::protect_controller::{
    format_iso8601_utc, AvClientError, AvClientSession, ControllerMessage, FrameDirection, FrameTrace, SessionStep,
    HEARTBEATS_TIMEOUT_MS, HELLO_PROTOCOL_VERSION,
};
use flvproxy::ws::{Opcode, WsError, WsFrame};

const NEW_YEAR_MS: u64 = 1_735_689_600_000;

#[test]
fn hello_protocol_version_fallback_is_the_redalert_baseline() {
    assert_eq!(HELLO_PROTOCOL_VERSION, 67);
}

#[test]
fn heartbeats_timeout_ms_matches_protect_source() {
    assert_eq!(HEARTBEATS_TIMEOUT_MS, 60_000);
}

#[test]
fn controller_message_defaults_missing_fields_without_failing() {
    let msg = ControllerMessage::parse(b"{}").expect("empty object is structurally valid JSON");
    assert_eq!(msg.function_name(), "");
    assert_eq!(msg.message_id(), 0);
    assert!(!msg.response_expected());
    assert_eq!(msg.payload_u64("anything"), None);
}

#[test]
fn controller_message_extracts_recon_envelope_fields() {
    let input = br#"{"from":"ubnt_avclient","functionName":"ubnt_avclient_timeSync","inResponseTo":0,"messageId":79364096,"payload":{"timeDelta":0},"responseExpected":true,"timeStamp":"2026-06-19T15:52:59.817+00:00","to":"UniFiVideo"}"#;
    let msg = ControllerMessage::parse(input).expect("valid");
    assert_eq!(msg.function_name(), "ubnt_avclient_timeSync");
    assert_eq!(msg.message_id(), 79_364_096);
    assert!(msg.response_expected());
    assert_eq!(msg.payload_u64("timeDelta"), Some(0));
    assert_eq!(msg.from(), "ubnt_avclient");
    assert_eq!(msg.to(), "UniFiVideo");
    assert_eq!(msg.in_response_to(), 0);
    assert_eq!(msg.payload_str("timeDelta"), None);
}

#[test]
fn controller_message_rejects_malformed_json() {
    let result = ControllerMessage::parse(b"{not json");
    assert!(matches!(result, Err(AvClientError::MalformedJson)), "expected MalformedJson, got {result:?}");
}

#[test]
fn format_iso8601_utc_at_epoch_is_1970_start() {
    assert_eq!(format_iso8601_utc(0), "1970-01-01T00:00:00.000+00:00");
}

#[test]
fn format_iso8601_utc_advances_one_second_and_one_day() {
    assert_eq!(format_iso8601_utc(1000), "1970-01-01T00:00:01.000+00:00");
    assert_eq!(format_iso8601_utc(86_400_000), "1970-01-02T00:00:00.000+00:00");
}

#[test]
fn format_iso8601_utc_at_2025_new_year() {
    assert_eq!(format_iso8601_utc(1_735_689_600_000), "2025-01-01T00:00:00.000+00:00");
}

fn say(session: &mut AvClientSession, json: &str) -> SessionStep {
    let frame = WsFrame { fin: true, opcode: Opcode::Binary, payload: json.as_bytes().to_vec() };
    session.on_frame(frame, NEW_YEAR_MS)
}

fn text(frame: &WsFrame) -> &str {
    std::str::from_utf8(&frame.payload).expect("messages are text")
}

#[test]
fn time_sync_is_answered_exactly() {
    let mut session = AvClientSession::with_start("cam".to_string(), 5);
    assert!(!session.is_ready());
    let step = say(&mut session, r#"{"functionName":"timeSync","messageId":9,"responseExpected":true}"#);
    assert!(session.is_ready());
    assert_eq!(step.send.len(), 1);
    assert_eq!(step.send[0].opcode, Opcode::Binary);
    assert_eq!(
        text(&step.send[0]),
        r#"{"from":"UniFiVideo","functionName":"timeSync","inResponseTo":9,"messageId":5,"payload":{"t1":1735689600000,"t2":1735689600000},"responseExpected":false,"timeStamp":"2025-01-01T00:00:00.000+00:00","to":"ubnt_avclient"}"#
    );
}

#[test]
fn adoption_waits_for_each_acknowledgement() {
    let mut session = AvClientSession::new("cam".to_string())
        .with_controller_identity("N".to_string(), "U".to_string(), "V".to_string())
        .with_stream_destination("tcp://1.2.3.4:7550".to_string(), Some("AABB_0".to_string()));
    let hello = say(&mut session, r#"{"functionName":"ubnt_avclient_hello","messageId":3,"responseExpected":true,"payload":{"protocolVersion":70}}"#);
    assert_eq!(hello.send.len(), 2);
    assert_eq!(
        text(&hello.send[0]),
        r#"{"from":"UniFiVideo","functionName":"ubnt_avclient_hello","inResponseTo":3,"messageId":1,"payload":{"protocolVersion":70,"controllerName":"N","controllerUuid":"U","controllerVersion":"V","overrideUuid":true},"responseExpected":false,"timeStamp":"2025-01-01T00:00:00.000+00:00","to":"ubnt_avclient"}"#
    );
    assert_eq!(
        text(&hello.send[1]),
        r#"{"from":"UniFiVideo","functionName":"ubnt_avclient_paramAgreement","inResponseTo":0,"messageId":2,"payload":{"enableStatusCodes":true,"useHeartbeats":false,"heartbeatsTimeoutMs":60000},"responseExpected":true,"timeStamp":"2025-01-01T00:00:00.000+00:00","to":"ubnt_avclient"}"#
    );
    assert!(!session.change_video_settings_sent());
    assert_eq!(say(&mut session, r#"{"inResponseTo":7,"responseExpected":false}"#).send.len(), 0);
    assert!(!session.change_video_settings_sent());
    let settings = say(&mut session, r#"{"inResponseTo":2,"responseExpected":false}"#);
    assert_eq!(settings.send.len(), 1);
    assert_eq!(
        text(&settings.send[0]),
        r#"{"from":"UniFiVideo","functionName":"ChangeVideoSettings","inResponseTo":0,"messageId":3,"payload":{"video":{"video1":{"avSerializer":{"type":"extendedFlv","parameters":{"streamName":"AABB_0","withOpus":true,"opusSampleRate":24000},"destinations":["tcp://1.2.3.4:7550"]},"type":"h264"}}},"responseExpected":false,"timeStamp":"2025-01-01T00:00:00.000+00:00","to":"ubnt_avclient"}"#
    );
    assert!(session.change_video_settings_sent());
    assert_eq!(say(&mut session, r#"{"inResponseTo":2,"responseExpected":false}"#).send.len(), 0);
}

#[test]
fn other_requests_get_an_ok() {
    let mut session = AvClientSession::new("cam".to_string());
    let step = say(&mut session, r#"{"functionName":"x","messageId":1,"responseExpected":true}"#);
    assert!(text(&step.send[0]).contains(r#""payload":{"statusCode":0,"status":"ok","deviceID":"cam"}"#));
    assert!(!session.is_ready());
    let hello = say(&mut session, r#"{"functionName":"hello","messageId":1,"responseExpected":true}"#);
    assert_eq!(hello.send.len(), 1, "without a destination nothing follows the answer");
    assert!(text(&hello.send[0]).contains(r#""protocolVersion":67"#));
}

#[test]
fn control_frames_are_mirrored() {
    let mut session = AvClientSession::new("cam".to_string());
    let ping = session.on_frame(WsFrame { fin: true, opcode: Opcode::Ping, payload: b"ping-1".to_vec() }, 0);
    assert_eq!(ping.send, vec![WsFrame { fin: true, opcode: Opcode::Pong, payload: b"ping-1".to_vec() }]);
    assert!(!ping.done);
    let close = session.on_frame(WsFrame { fin: true, opcode: Opcode::Close, payload: vec![3, 232] }, 0);
    assert_eq!(close.send, vec![WsFrame { fin: true, opcode: Opcode::Close, payload: vec![3, 232] }]);
    assert!(close.done);
    let pong = session.on_frame(WsFrame { fin: true, opcode: Opcode::Pong, payload: vec![] }, 0);
    assert_eq!(pong, SessionStep { send: vec![], done: false, malformed: false });
}

#[test]
fn broken_messages_are_told_and_skipped() {
    let mut session = AvClientSession::new("cam".to_string());
    let before = AvClientSession::new("cam".to_string());
    let step = say(&mut session, "{oops");
    assert_eq!(step, SessionStep { send: vec![], done: false, malformed: true });
    assert_eq!(session, before);
}

#[test]
fn message_numbers_wrap() {
    let mut session = AvClientSession::with_start("cam".to_string(), u64::MAX);
    let first = say(&mut session, r#"{"functionName":"x","messageId":1}"#);
    assert!(text(&first.send[0]).contains(r#""messageId":18446744073709551615"#));
    let second = say(&mut session, r#"{"functionName":"x","messageId":1}"#);
    assert!(text(&second.send[0]).contains(r#""messageId":0"#));
}

#[test]
fn errors_of_frames_become_errors_of_the_session() {
    assert_eq!(AvClientError::from(WsError::ReservedOpcode(3)), AvClientError::Ws(WsError::ReservedOpcode(3)));
}

#[test]
fn without_a_destination_the_settings_are_passed_over() {
    let mut session = AvClientSession::new("cam".to_string());
    assert!(!session.change_video_settings_sent());
    say(&mut session, r#"{"functionName":"timeSync","messageId":1,"responseExpected":true}"#);
    assert!(!session.change_video_settings_sent());
    let hello = say(&mut session, r#"{"functionName":"hello","messageId":2,"responseExpected":true}"#);
    assert_eq!(hello.send.len(), 1);
    assert!(session.change_video_settings_sent());
}

#[test]
fn errors_have_their_words() {
    assert_eq!(AvClientError::MalformedJson.message(), "malformed AVClient JSON frame");
    assert_eq!(
        AvClientError::from(WsError::Io("reset".to_string())).message(),
        "WebSocket error in AVClient session: reset"
    );
    assert_eq!(
        AvClientError::from(WsError::TooLarge(70_000)).message(),
        "WebSocket error in AVClient session: frame of 70000 bytes is too large"
    );
    assert_eq!(
        AvClientError::from(WsError::ReservedOpcode(0x0b)).message(),
        "WebSocket error in AVClient session: reserved opcode 0x0b"
    );
}

#[test]
fn a_trace_holds_what_went_over_the_wire() {
    let frame = WsFrame { fin: true, opcode: Opcode::Text, payload: vec![1, 2, 3] };
    let trace = FrameTrace::new(FrameDirection::Out, &frame);
    assert_eq!(trace.direction, FrameDirection::Out);
    assert_eq!(trace.opcode, Opcode::Text);
    assert_eq!(trace.payload, vec![1, 2, 3]);
}
