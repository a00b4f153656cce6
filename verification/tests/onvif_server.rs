use flvproxy::camera_identity::CameraIdentity;
use flvproxy::ieee754::Binary32;
use flvproxy::onvif_responses::{build_get_snapshot_uri, build_get_stream_uri, OnvifConfig};
use flvproxy::onvif_server::{
    build_http_response, parse_content_length, parse_soap_action, resolve_action, route, strip_quotes, ConnectionStep,
    OnvifConnection, Service, STATUS_OK,
};
use flvproxy::stream_state::{CodecParams, StreamState};
use flvproxy::xml::xml_escape;

fn cfg() -> OnvifConfig {
    OnvifConfig::defaults_for("127.0.0.1".to_string(), 554, 8080)
}

const NOW: i64 = 1_735_693_323;

fn envelope(body_inner: &str) -> String {
    format!("<?xml version=\"1.0\" encoding=\"UTF-8\"?><s:Envelope xmlns:s=\"http://www.w3.org/2003/05/soap-envelope\"><s:Body>{body_inner}</s:Body></s:Envelope>")
}

#[test]
fn strip_quotes_removes_one_layer_of_surrounding_double_quotes() {
    assert_eq!(strip_quotes("\"uri\""), "uri");
    assert_eq!(strip_quotes("uri"), "uri");
    assert_eq!(strip_quotes("\"\""), "");
}

#[test]
fn resolve_action_prefers_soap_action_header_over_body() {
    let body = "http://www.onvif.org/ver10/media/wsdl/GetStreamUri";
    let r = resolve_action("\"http://www.onvif.org/ver10/device/wsdl/GetCapabilities\"", body).expect("header wins");
    assert_eq!(r.service, Service::Device);
    assert_eq!(r.op, "GetCapabilities");
}

#[test]
fn resolve_action_falls_back_to_body_namespace_when_header_absent() {
    let r = resolve_action("", "<trt:GetStreamUri xmlns:trt=\"http://www.onvif.org/ver10/media/wsdl/GetStreamUri\"/>").expect("body fallback");
    assert_eq!(r.service, Service::Media);
    assert_eq!(r.op, "GetStreamUri");
}

#[test]
fn resolve_action_returns_none_for_unrecognized_action() {
    assert!(resolve_action("\"http://example.com/Foo\"", "").is_none());
    assert!(resolve_action("", "<no/>").is_none());
}

#[test]
fn xml_escape_replaces_all_five_special_characters() {
    assert_eq!(xml_escape("10.0.0.1&<>\"'"), "10.0.0.1&amp;&lt;&gt;&quot;&apos;");
}

#[test]
fn route_unknown_action_returns_fault_with_action_not_supported() {
    let (status, xml) = route("\"http://example.com/Bogus\"", "", &cfg(), &StreamState::new(), NOW);
    assert_eq!(status, STATUS_OK);
    assert!(xml.contains("ActionNotSupported"));
}

#[test]
fn get_device_information_prefers_published_camera_serial_over_default() {
    let mut state = StreamState::new();
    state.publish_camera_identity(CameraIdentity { serial: "28704E11B531".to_string(), model: String::new() });
    let (_status, xml) = route("\"http://www.onvif.org/ver10/device/wsdl/GetDeviceInformation\"", "", &cfg(), &state, NOW);
    assert!(xml.contains("<tds:SerialNumber>28704E11B531</tds:SerialNumber>"), "published MAC-derived serial must be advertised: {xml}");
    assert!(!xml.contains("000000000000"), "default serial must not appear once identity is published: {xml}");
    assert!(xml.contains("<tds:Model>UVC-G5-Bullet</tds:Model>"), "empty published model must fall back to the default MODEL: {xml}");
}

#[test]
fn get_device_information_falls_back_to_cfg_serial_without_published_identity() {
    let cfg_with_serial = OnvifConfig { serial: "OPERATOR-FALLBACK".to_string(), ..cfg() };
    let (_status, xml) = route("\"http://www.onvif.org/ver10/device/wsdl/GetDeviceInformation\"", "", &cfg_with_serial, &StreamState::new(), NOW);
    assert!(xml.contains("<tds:SerialNumber>OPERATOR-FALLBACK</tds:SerialNumber>"), "cfg.serial fallback must be used when no identity is published: {xml}");
    assert!(xml.contains("<tds:Model>UVC-G5-Bullet</tds:Model>"), "default model must be advertised: {xml}");
}

#[test]
fn get_device_information_uses_cfg_serial_when_published_model_is_empty_but_serial_present() {
    let (_status, xml) = route("\"http://www.onvif.org/ver10/device/wsdl/GetDeviceInformation\"", "", &cfg(), &StreamState::new(), NOW);
    assert!(xml.contains("<tds:SerialNumber>000000000000</tds:SerialNumber>"), "default serial must appear when nothing is published: {xml}");
}

#[test]
fn route_get_stream_uri_contains_exact_rtsp_uri() {
    let (status, xml) = route("\"http://www.onvif.org/ver10/media/wsdl/GetStreamUri\"", "", &cfg(), &StreamState::new(), NOW);
    assert_eq!(status, STATUS_OK);
    assert!(xml.contains("<tt:Uri>rtsp://127.0.0.1:554/stream</tt:Uri>"));
}

#[test]
fn route_get_snapshot_uri_returns_200_with_rtsp_stream_uri() {
    let (status, xml) = route("\"http://www.onvif.org/ver10/media/wsdl/GetSnapshotUri\"", "", &cfg(), &StreamState::new(), NOW);
    assert_eq!(status, STATUS_OK, "GetSnapshotUri must return 200: {xml}");
    assert!(xml.contains("<trt:GetSnapshotUriResponse>"), "must wrap in GetSnapshotUriResponse: {xml}");
    assert!(xml.contains("<tt:Uri>rtsp://127.0.0.1:554/stream</tt:Uri>"), "snapshot URI must be the RTSP stream URI: {xml}");
    assert!(xml.contains("<tt:Timeout>PT60S</tt:Timeout>"), "must carry the 60 s timeout: {xml}");
    assert!(!xml.contains("Fault"), "must not be a fault: {xml}");
}

#[test]
fn route_get_audio_output_configurations_returns_empty_list_not_fault() {
    let (status, xml) = route("\"http://www.onvif.org/ver10/media/wsdl/GetAudioOutputConfigurations\"", "", &cfg(), &StreamState::new(), NOW);
    assert_eq!(status, STATUS_OK, "GetAudioOutputConfigurations must return 200: {xml}");
    assert!(xml.contains("<trt:GetAudioOutputConfigurationsResponse>"), "must wrap in GetAudioOutputConfigurationsResponse: {xml}");
    assert!(xml.contains("<trt:Configurations/>"), "must advertise an empty Configurations list: {xml}");
    assert!(!xml.contains("<tt:AudioOutputConfiguration"), "no audio output configuration may be advertised: {xml}");
    assert!(!xml.contains("Fault"), "must not be a fault: {xml}");
}

#[test]
fn route_set_synchronization_point_returns_empty_success_not_fault() {
    let (status, xml) = route("\"http://www.onvif.org/ver10/device/wsdl/SetSynchronizationPoint\"", "", &cfg(), &StreamState::new(), NOW);
    assert_eq!(status, STATUS_OK, "SetSynchronizationPoint must return 200: {xml}");
    assert!(xml.contains("<tds:SetSynchronizationPointResponse"), "must wrap in SetSynchronizationPointResponse: {xml}");
    assert!(!xml.contains("Fault"), "must not be a fault: {xml}");
}

#[test]
fn route_get_snapshot_uri_routes_via_body_namespace_when_header_absent() {
    let body = envelope("<trt:GetSnapshotUri xmlns:trt=\"http://www.onvif.org/ver10/media/wsdl/GetSnapshotUri\"/>");
    let (status, xml) = route("", &body, &cfg(), &StreamState::new(), NOW);
    assert_eq!(status, STATUS_OK);
    assert!(xml.contains("<trt:GetSnapshotUriResponse>"), "body-namespace fallback must route GetSnapshotUri: {xml}");
}

#[test]
fn build_http_response_has_content_type_and_length() {
    let bytes = build_http_response(STATUS_OK, "<x/>");
    let text = String::from_utf8_lossy(&bytes);
    assert!(text.starts_with("HTTP/1.1 200 OK\r\n"));
    assert!(text.contains("Content-Type: application/soap+xml; charset=utf-8"));
    assert!(text.contains("Content-Length: 4\r\n"));
    assert!(text.contains("Connection: close\r\n"));
    assert!(text.ends_with("<x/>"));
}

#[test]
fn route_get_system_date_and_time_returns_200_and_utc_datetime_elements() {
    let (status, xml) = route("\"http://www.onvif.org/ver10/device/wsdl/GetSystemDateAndTime\"", "", &cfg(), &StreamState::new(), NOW);
    assert_eq!(status, STATUS_OK, "GetSystemDateAndTime must return 200: {xml}");
    assert!(xml.contains("<tds:GetSystemDateAndTimeResponse>"), "must wrap in GetSystemDateAndTimeResponse: {xml}");
    assert!(xml.contains("<tt:UTCDateTime>"), "must include UTCDateTime: {xml}");
    assert!(xml.contains("<tt:Year>"), "must include a Year element: {xml}");
    assert!(xml.contains("<tt:Hour>"), "must include an Hour element: {xml}");
}

#[test]
fn route_get_system_date_and_time_routes_via_body_namespace_when_header_absent() {
    let body = envelope("<tds:GetSystemDateAndTime xmlns:tds=\"http://www.onvif.org/ver10/device/wsdl/GetSystemDateAndTime\"/>");
    let (status, xml) = route("", &body, &cfg(), &StreamState::new(), NOW);
    assert_eq!(status, STATUS_OK);
    assert!(xml.contains("<tds:GetSystemDateAndTimeResponse>"), "body-namespace fallback must route GetSystemDateAndTime: {xml}");
}

#[test]
fn the_date_is_told_in_numbers() {
    let (_, xml) = route("http://www.onvif.org/ver10/device/wsdl/GetSystemDateAndTime", "", &cfg(), &StreamState::new(), NOW);
    assert!(xml.contains("<tt:Date><tt:Year>2025</tt:Year><tt:Month>1</tt:Month><tt:Day>1</tt:Day></tt:Date>"), "{xml}");
    assert!(xml.contains("<tt:Time><tt:Hour>1</tt:Hour><tt:Minute>2</tt:Minute><tt:Second>3</tt:Second></tt:Time>"), "{xml}");
}

#[test]
fn a_fault_is_exactly_this() {
    let (_, xml) = route("", "", &cfg(), &StreamState::new(), NOW);
    assert_eq!(
        xml,
        "<?xml version=\"1.0\" encoding=\"UTF-8\"?>\n\
         <s:Envelope xmlns:s=\"http://www.w3.org/2003/05/soap-envelope\" xmlns:wsa=\"http://schemas.xmlsoap.org/ws/2004/08/addressing\">\n\
         <s:Body>\n\
         <s:Fault>\n\
         <s:Code><s:Value>s:Sender</s:Value><s:Subcode><s:Value>wsa:ActionNotSupported</s:Value></s:Subcode></s:Code>\n\
         <s:Reason><s:Text xml:lang=\"en\">The action is not supported by the service.</s:Text></s:Reason>\n\
         </s:Fault>\n\
         </s:Body>\n\
         </s:Envelope>"
    );
}

#[test]
fn services_and_capabilities_are_exactly_these() {
    let hostile = OnvifConfig { server_ip: "<ip>".to_string(), ..cfg() };
    let (_, xml) = route("http://www.onvif.org/ver10/device/wsdl/GetServices", "", &hostile, &StreamState::new(), NOW);
    assert_eq!(
        xml,
        "<?xml version=\"1.0\" encoding=\"UTF-8\"?>\n\
         <s:Envelope xmlns:s=\"http://www.w3.org/2003/05/soap-envelope\" xmlns:tds=\"http://www.onvif.org/ver10/device/wsdl\" xmlns:tt=\"http://www.onvif.org/ver10/schema\">\n\
         <s:Body>\n\
         <tds:GetServicesResponse>\n\
         <tds:Service>\n\
         <tds:Namespace>http://www.onvif.org/ver10/device/wsdl</tds:Namespace>\n\
         <tds:XAddr>http://&lt;ip&gt;:8080/onvif/device_service</tds:XAddr>\n\
         <tds:Version><tt:Major>20</tt:Major><tt:Minor>12</tt:Minor></tds:Version>\n\
         </tds:Service>\n\
         <tds:Service>\n\
         <tds:Namespace>http://www.onvif.org/ver10/media/wsdl</tds:Namespace>\n\
         <tds:XAddr>http://&lt;ip&gt;:8080/onvif/media_service</tds:XAddr>\n\
         <tds:Version><tt:Major>20</tt:Major><tt:Minor>12</tt:Minor></tds:Version>\n\
         </tds:Service>\n\
         </tds:GetServicesResponse>\n\
         </s:Body>\n\
         </s:Envelope>"
    );
    let (_, caps) = route("http://www.onvif.org/ver10/device/wsdl/GetCapabilities", "", &cfg(), &StreamState::new(), NOW);
    assert!(caps.contains("<tt:Device><tt:XAddrs>http://127.0.0.1:8080/onvif/device_service</tt:XAddrs></tt:Device>\n<tt:Media><tt:XAddrs>http://127.0.0.1:8080/onvif/media_service</tt:XAddrs></tt:Media>\n"), "{caps}");
    let (_, reference) = route("http://www.onvif.org/ver10/device/wsdl/GetEndpointReference", "", &cfg(), &StreamState::new(), NOW);
    assert!(reference.contains("<tds:Guid>urn:uuid:flvproxy-000000000000</tds:Guid>"), "{reference}");
}

#[test]
fn profiles_tell_the_stream_or_the_fallback() {
    let mut state = StreamState::new();
    let action = "http://www.onvif.org/ver10/media/wsdl/GetProfiles";
    let (_, xml) = route(action, "", &cfg(), &state, NOW);
    assert!(xml.contains("<trt:Profiles token=\"Profile_1\">\n"), "{xml}");
    assert!(xml.contains("<tt:Width>1920</tt:Width><tt:Height>1080</tt:Height>"), "{xml}");
    assert!(xml.contains("<tt:FrameRateLimit>30</tt:FrameRateLimit>"), "{xml}");
    state.publish_config(CodecParams {
        sps: vec![],
        pps: vec![],
        profile_indication: 0,
        profile_compat: 0,
        level_indication: 0,
        width: Some(2688),
        height: None,
        fps: Some(Binary32 { bits: 24.9f32.to_bits() }),
    });
    let (_, told) = route(action, "", &cfg(), &state, NOW);
    assert!(told.contains("<tt:Width>2688</tt:Width><tt:Height>1080</tt:Height>"), "{told}");
    assert!(told.contains("<tt:FrameRateLimit>24</tt:FrameRateLimit>"), "{told}");
}

#[test]
fn every_operation_can_be_asked_for() {
    for (service, names) in [
        ("device", vec!["GetSystemDateAndTime", "GetCapabilities", "GetDeviceInformation", "GetEndpointReference", "GetServices", "SetSynchronizationPoint"]),
        ("media", vec!["GetProfiles", "GetStreamUri", "GetSnapshotUri", "GetAudioOutputConfigurations"]),
    ] {
        for name in names {
            let quoted = format!("\"http://www.onvif.org/ver10/{service}/wsdl/{name}\"");
            assert_eq!(resolve_action(&quoted, "").expect("known").op, name);
        }
    }
}

#[test]
fn headers_give_length_and_action() {
    let headers = "POST / HTTP/1.1\r\nCONTENT-LENGTH:  12 \r\nSOAPAction: \"x\"";
    assert_eq!(parse_content_length(headers), 12);
    assert_eq!(parse_soap_action(headers), "\"x\"");
    assert_eq!(parse_content_length("Content-Length: x"), 0);
    assert_eq!(parse_soap_action(""), "");
}

fn step(conn: &mut OnvifConnection, bytes: &[u8]) -> ConnectionStep {
    conn.on_bytes(bytes, &cfg(), &StreamState::new(), NOW)
}

#[test]
fn a_request_is_answered_when_it_has_arrived() {
    let mut conn = OnvifConnection::new();
    assert_eq!(step(&mut conn, b"POST / HTTP/1.1\r\nContent-Le"), ConnectionStep::Read);
    assert!(!conn.has_headers());
    assert_eq!(step(&mut conn, b"ngth: 50\r\n\r\nhttp://www.onvif.org/"), ConnectionStep::Read);
    assert!(conn.has_headers());
    let ConnectionStep::Reply(bytes) = step(&mut conn, b"ver10/media/wsdl/GetStreamUri\xFF") else {
        panic!("an answer is due");
    };
    let (_, xml) = route("http://www.onvif.org/ver10/media/wsdl/GetStreamUri", "", &cfg(), &StreamState::new(), NOW);
    assert_eq!(bytes, build_http_response(STATUS_OK, &xml));
}

#[test]
fn bad_requests_end_the_connection() {
    let mut conn = OnvifConnection::new();
    assert_eq!(step(&mut conn, b"\xFF\r\n\r\n"), ConnectionStep::CloseBadHeaders);
    let mut flood = OnvifConnection::new();
    assert_eq!(step(&mut flood, &vec![b'a'; 65_536]), ConnectionStep::Read);
    assert_eq!(step(&mut flood, b"a"), ConnectionStep::Close);
    let mut huge = OnvifConnection::new();
    assert_eq!(step(&mut huge, b"A: b\r\nContent-Length: 18446744073709551615\r\n\r\n"), ConnectionStep::Read);
}

#[test]
fn the_snapshot_answer_is_the_stream_answer_renamed() {
    let odd = OnvifConfig::defaults_for("<tt:Uri>&".to_string(), 8554, 8080);
    for cfg in [cfg(), odd] {
        let stream = build_get_stream_uri(&cfg);
        let snapshot = build_get_snapshot_uri(&cfg);
        assert_eq!(snapshot, stream.replace("GetStreamUriResponse", "GetSnapshotUriResponse"));
        let address = format!("<tt:Uri>rtsp://{}:{}/stream</tt:Uri>", xml_escape(&cfg.server_ip), cfg.rtsp_port);
        for answer in [stream, snapshot] {
            assert_eq!(answer.matches("<tt:Uri>").count(), 1);
            assert!(answer.contains(&address));
            assert!(answer.contains("<tt:Timeout>PT60S</tt:Timeout>"));
        }
    }
}
