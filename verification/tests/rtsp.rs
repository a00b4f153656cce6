use flvproxy::rtsp_protocol::{
    bare_response, handle_request, parse_request, session_id, Method, RtspError, RtspRequest, RtspSessions, Transport,
    PUBLIC_METHODS, SESSION_TIMEOUT_SECS, STATUS_BAD_REQUEST, STATUS_NOT_IMPLEMENTED, STATUS_OK,
    STATUS_SERVICE_UNAVAILABLE, STATUS_SESSION_NOT_FOUND, STATUS_UNSUPPORTED_TRANSPORT,
};
use flvproxy::rtsp_server::{
    admits, is_worth_a_warning, reap_if_idle, refusal, rtp_port, ControlStep, RtspConnection,
    MAX_READ_BUFFER_BYTES, MAX_RTSP_CLIENTS,
};
use flvproxy::sdp::build_sdp;
use flvproxy::stream_state::{ClientId, CodecParams, Frame, StreamState};

fn codec() -> CodecParams {
    CodecParams {
        sps: vec![0x67, 0x64, 0, 0x28],
        pps: vec![0x68],
        profile_indication: 0x64,
        profile_compat: 0,
        level_indication: 0x28,
        width: None,
        height: None,
        fps: None,
    }
}

fn request(text: &str) -> RtspRequest {
    let (req, used) = parse_request(text.as_bytes()).expect("well formed").expect("whole");
    assert_eq!(used, text.len());
    req
}

#[test]
fn requests_are_read() {
    let text = "SETUP rtsp://h/stream RTSP/1.0\r\nCSeq: 3\r\nSession: 00000001;timeout=60\r\nTransport: RTP/AVP/TCP\r\nContent-Length: 2\r\n\r\nab";
    assert_eq!(
        request(text),
        RtspRequest {
            method: Method::Setup,
            uri: "rtsp://h/stream".to_string(),
            cseq: Some(3),
            session: Some("00000001".to_string()),
            transport: Some("RTP/AVP/TCP".to_string()),
        }
    );
    assert_eq!(parse_request(&text.as_bytes()[..text.len() - 1]), Ok(None));
    assert_eq!(request("FROB * RTSP/1.0\r\n\r\n").method, Method::Unknown);
    assert_eq!(session_id(" 12 ; timeout=5"), "12");
}

#[test]
fn other_bytes_are_refused() {
    assert_eq!(parse_request(b"GET / HTTP/1.1\r\n\r\n"), Err(RtspError::NonRtspVersion("HTTP/1.1".to_string())));
    assert_eq!(parse_request(b"nonsense\r\n\r\n"), Err(RtspError::Malformed));
    assert_eq!(parse_request(b"\xFF\xFE / RTSP/1.0\r\n\r\n"), Err(RtspError::Malformed));
    assert_eq!(parse_request(b""), Ok(None));
}

#[test]
fn methods_are_answered() {
    let mut sessions = RtspSessions::new();
    let mut ask = |text: &str, with_codec: bool| {
        let c = codec();
        handle_request(&request(text), &mut sessions, "10.0.0.5", if with_codec { Some(&c) } else { None }, None, 7000)
    };
    let options = ask("OPTIONS * RTSP/1.0\r\nCSeq: 1\r\n\r\n", false);
    assert_eq!(
        String::from_utf8(options.to_bytes()).expect("text"),
        format!("RTSP/1.0 200 OK\r\nCSeq: 1\r\nPublic: {PUBLIC_METHODS}\r\n\r\n")
    );
    assert_eq!(ask("DESCRIBE rtsp://h/stream RTSP/1.0\r\nCSeq: 2\r\n\r\n", false).status, STATUS_SERVICE_UNAVAILABLE);
    let described = ask("DESCRIBE rtsp://h/stream RTSP/1.0\r\nCSeq: 2\r\n\r\n", true);
    assert_eq!(described.status, STATUS_OK);
    assert_eq!(described.body, build_sdp(&codec(), "10.0.0.5", None).into_bytes());
    assert_eq!(ask("SETUP x RTSP/1.0\r\nCSeq: 3\r\n\r\n", false).status, STATUS_UNSUPPORTED_TRANSPORT);
    let tcp = ask("SETUP x RTSP/1.0\r\nCSeq: 3\r\nTransport: RTP/AVP;unicast, RTP/AVP/TCP;unicast;interleaved=2-3\r\n\r\n", false);
    assert_eq!(
        String::from_utf8(tcp.to_bytes()).expect("text"),
        format!("RTSP/1.0 200 OK\r\nCSeq: 3\r\nSession: 00000001;timeout={SESSION_TIMEOUT_SECS}\r\nTransport: RTP/AVP/TCP;unicast;interleaved=2-3\r\n\r\n")
    );
    let udp = ask("SETUP x RTSP/1.0\r\nCSeq: 4\r\nTransport: RTP/AVP;unicast;client_port=5000-5001\r\n\r\n", false);
    assert_eq!(udp.headers, vec![("Transport", "RTP/AVP;unicast;client_port=5000-5001;server_port=7000-7001".to_string())]);
    assert_eq!(ask("PLAY x RTSP/1.0\r\nCSeq: 5\r\nSession: 9\r\n\r\n", false).status, STATUS_SESSION_NOT_FOUND);
    assert_eq!(ask("PLAY x RTSP/1.0\r\nCSeq: 5\r\nSession: 00000001\r\n\r\n", false).status, STATUS_OK);
    assert_eq!(ask("GET_PARAMETER x RTSP/1.0\r\nCSeq: 6\r\nSession: 00000001\r\n\r\n", false).status, STATUS_OK);
    assert_eq!(ask("TEARDOWN x RTSP/1.0\r\nCSeq: 7\r\nSession: 00000001\r\n\r\n", false).status, STATUS_OK);
    assert_eq!(ask("TEARDOWN x RTSP/1.0\r\nCSeq: 7\r\nSession: 00000001\r\n\r\n", false).status, STATUS_SESSION_NOT_FOUND);
    assert_eq!(ask("RECORD x RTSP/1.0\r\nCSeq: 8\r\n\r\n", false).status, STATUS_NOT_IMPLEMENTED);
    let _ = &ask;
    assert!(!sessions.any_playing());
    assert!(sessions.get("00000002").is_some());
    sessions.remove("00000002");
    assert!(sessions.get("00000002").is_none());
}

#[test]
fn limits_are_kept() {
    assert!(admits(MAX_RTSP_CLIENTS - 1));
    assert!(!admits(MAX_RTSP_CLIENTS));
    assert_eq!(refusal(), bare_response(STATUS_SERVICE_UNAVAILABLE, None).to_bytes());
    assert!(reap_if_idle(&RtspSessions::new(), 60));
    assert!(!reap_if_idle(&RtspSessions::new(), 59));
    assert!(is_worth_a_warning(STATUS_SERVICE_UNAVAILABLE));
    assert!(is_worth_a_warning(STATUS_UNSUPPORTED_TRANSPORT));
    assert!(!is_worth_a_warning(STATUS_OK));
    let mut conn = RtspConnection::new();
    assert!(conn.on_bytes(&vec![b'x'; MAX_READ_BUFFER_BYTES]));
    assert!(!conn.on_bytes(b"x"));
}

fn step(conn: &mut RtspConnection, hub: &mut StreamState, text: &str) -> ControlStep {
    assert!(conn.on_bytes(text.as_bytes()));
    conn.next_step(hub, "10.0.0.5", None, 7000)
}

#[test]
fn a_connection_plays_once_and_leaves_nothing() {
    let mut hub = StreamState::new();
    let mut conn = RtspConnection::new();
    assert_eq!(conn.next_step(&mut hub, "h", None, 7000), ControlStep::Wait);
    let set_up = step(&mut conn, &mut hub, "SETUP x RTSP/1.0\r\nCSeq: 1\r\nTransport: RTP/AVP/TCP\r\n\r\n");
    assert!(matches!(set_up, ControlStep::Reply { method: Method::Setup, status: STATUS_OK, .. }), "{set_up:?}");
    assert_eq!(hub.client_count(), 1);
    assert!(conn.is_idle(60));
    let play = step(&mut conn, &mut hub, "PLAY x RTSP/1.0\r\nCSeq: 2\r\nSession: 00000001\r\n\r\n");
    let ControlStep::Play { client_id, transport, .. } = play else {
        panic!("the stream starts: {play:?}");
    };
    assert_eq!(client_id, ClientId(1));
    assert_eq!(transport, Transport::Interleaved { rtp_ch: 0, rtcp_ch: 1 });
    assert!(!conn.is_idle(600));
    let again = step(&mut conn, &mut hub, "PLAY x RTSP/1.0\r\nCSeq: 3\r\nSession: 00000001\r\n\r\n");
    assert!(matches!(again, ControlStep::Reply { method: Method::Play, status: STATUS_OK, .. }), "{again:?}");
    conn.cleanup(&mut hub);
    assert_eq!(hub.client_count(), 0);
}

#[test]
fn ports_are_bound_before_the_answer() {
    let mut hub = StreamState::new();
    let mut conn = RtspConnection::new();
    let text = "SETUP x RTSP/1.0\r\nCSeq: 1\r\nTransport: RTP/AVP;unicast;client_port=5000-5001\r\n\r\n";
    assert_eq!(step(&mut conn, &mut hub, text), ControlStep::Bind { server_rtp: 7000 });
    let refused = conn.on_bound(&mut hub, false);
    assert!(matches!(refused, ControlStep::Reply { status: STATUS_SERVICE_UNAVAILABLE, .. }), "{refused:?}");
    assert_eq!(hub.client_count(), 0);
    assert_eq!(step(&mut conn, &mut hub, text), ControlStep::Bind { server_rtp: 7000 });
    let granted = conn.on_bound(&mut hub, true);
    assert!(matches!(granted, ControlStep::Reply { status: STATUS_OK, .. }), "{granted:?}");
    assert_eq!(hub.client_count(), 1);
    hub.publish_frame(Frame { is_keyframe: true, timestamp_ms: 0, nalus: vec![] });
    conn.cleanup(&mut hub);
    assert_eq!(hub.client_count(), 0);
}

#[test]
fn strangers_are_refused() {
    let mut hub = StreamState::new();
    let foreign = step(&mut RtspConnection::new(), &mut hub, "GET / HTTP/1.1\r\n\r\n");
    assert_eq!(
        foreign,
        ControlStep::Refuse {
            bytes: bare_response(STATUS_BAD_REQUEST, None).to_bytes(),
            version: Some("HTTP/1.1".to_string())
        }
    );
    let broken = step(&mut RtspConnection::new(), &mut hub, "x\r\n\r\n");
    assert_eq!(
        broken,
        ControlStep::Refuse { bytes: bare_response(STATUS_BAD_REQUEST, None).to_bytes(), version: None }
    );
}

#[test]
fn packets_of_the_client_are_skipped() {
    let mut hub = StreamState::new();
    let mut conn = RtspConnection::new();
    assert!(conn.on_bytes(b"$\x01\x00\x02ab"));
    let answer = step(&mut conn, &mut hub, "OPTIONS * RTSP/1.0\r\nCSeq: 1\r\n\r\n");
    assert!(matches!(answer, ControlStep::Reply { method: Method::Options, status: STATUS_OK, .. }), "{answer:?}");
}

#[test]
fn ports_are_even_and_come_round_again() {
    assert_eq!(rtp_port(0), 50_000);
    assert_eq!(rtp_port(2), 50_002);
    assert_eq!(rtp_port(3), 50_002);
    assert_eq!(rtp_port(9_998), 59_998);
    assert_eq!(rtp_port(10_000), 50_000);
    assert_eq!(rtp_port(u16::MAX), 55_534);
}
