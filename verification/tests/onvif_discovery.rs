use flvproxy::onvif_discovery::{
    build_bye, build_hello, build_probe_match, extract_message_id, fill_random, parse_probe, random_device_addr,
    reply_to, seed_value, DiscoveryConfig, ACTION_BYE, ACTION_HELLO, ACTION_PROBE, ACTION_PROBE_MATCH, DEVICE_TYPE,
    SCOPE_STREAMING,
};

const XADDR: &str = "http://10.0.0.5:8080/onvif/device_service";
const DEVICE_ADDR: &str = "urn:uuid:abc";

fn probe_envelope(message_id: &str) -> String {
    format!(
        "<?xml version=\"1.0\" encoding=\"UTF-8\"?>\
         <s:Envelope xmlns:s=\"http://www.w3.org/2003/05/soap-envelope\" \
         xmlns:wsa=\"http://schemas.xmlsoap.org/ws/2004/08/addressing\">\
         <s:Header>\
         <wsa:Action>{ACTION_PROBE}</wsa:Action>\
         <wsa:MessageID>{message_id}</wsa:MessageID>\
         </s:Header>\
         <s:Body><Probe xmlns=\"http://schemas.xmlsoap.org/ws/2005/04/discovery\"/></s:Body>\
         </s:Envelope>"
    )
}

#[test]
fn build_probe_match_contains_xaddr_endpoint_and_network_video_transmitter() {
    let xml = build_probe_match(XADDR, DEVICE_ADDR, None);
    assert!(xml.contains(&format!("<wsa:Address>{DEVICE_ADDR}</wsa:Address>")), "endpoint address must be present: {xml}");
    assert!(xml.contains(XADDR), "raw XAddr must be present: {xml}");
    assert!(xml.contains(DEVICE_TYPE), "NetworkVideoTransmitter missing: {xml}");
    assert!(xml.contains("<wsdiscovery:ProbeMatches>"), "ProbeMatches wrapper missing: {xml}");
    assert!(xml.contains("<wsdiscovery:ProbeMatch>"), "ProbeMatch inner missing: {xml}");
    assert!(xml.contains(SCOPE_STREAMING), "Streaming scope missing: {xml}");
    assert!(xml.contains(ACTION_PROBE_MATCH), "ProbeMatch action missing: {xml}");
}

#[test]
fn build_probe_match_includes_relates_to_when_supplied() {
    let xml = build_probe_match(XADDR, DEVICE_ADDR, Some("urn:uuid:probe-1"));
    assert!(xml.contains("<wsa:RelatesTo>urn:uuid:probe-1</wsa:RelatesTo>"), "RelatesTo must echo the probe MessageID: {xml}");
}

#[test]
fn build_probe_match_omits_relates_to_when_none() {
    let xml = build_probe_match(XADDR, DEVICE_ADDR, None);
    assert!(!xml.contains("wsa:RelatesTo"), "RelatesTo must be absent when no relates_to supplied: {xml}");
}

#[test]
fn build_probe_match_escapes_markup_in_xaddr_and_address() {
    let injected_xaddr = "http://10.0.0.5:8080/onvif/device_service?x=<>&\"";
    let injected_addr = "urn:uuid:<>&\"'";
    let xml = build_probe_match(injected_xaddr, injected_addr, None);
    assert!(!xml.contains(injected_xaddr), "raw injected XAddr must not appear: {xml}");
    assert!(!xml.contains(injected_addr), "raw injected address must not appear: {xml}");
    assert!(xml.contains("&lt;&gt;&amp;&quot;"));
}

#[test]
fn build_hello_contains_hello_action_and_xaddr() {
    let xml = build_hello(XADDR, DEVICE_ADDR);
    assert!(xml.contains(ACTION_HELLO), "Hello action missing: {xml}");
    assert!(xml.contains("<wsdiscovery:Hello>"), "Hello element missing: {xml}");
    assert!(xml.contains(XADDR), "XAddr missing from Hello: {xml}");
    assert!(xml.contains(DEVICE_TYPE), "NetworkVideoTransmitter missing: {xml}");
}

#[test]
fn build_bye_contains_bye_action_and_xaddr() {
    let xml = build_bye(XADDR, DEVICE_ADDR);
    assert!(xml.contains(ACTION_BYE), "Bye action missing: {xml}");
    assert!(xml.contains("<wsdiscovery:Bye>"), "Bye element missing: {xml}");
    assert!(xml.contains(XADDR), "XAddr missing from Bye: {xml}");
}

#[test]
fn parse_probe_returns_message_id_for_well_formed_probe() {
    let probe = probe_envelope("urn:uuid:probe-42");
    let id = parse_probe(probe.as_bytes()).expect("Probe must be detected");
    assert_eq!(id, "urn:uuid:probe-42");
}

#[test]
fn parse_probe_returns_none_for_probe_match() {
    let xml = build_probe_match(XADDR, DEVICE_ADDR, None);
    assert!(parse_probe(xml.as_bytes()).is_none());
}

#[test]
fn parse_probe_returns_none_for_garbage() {
    assert!(parse_probe(b"not xml at all").is_none());
    assert!(parse_probe(&[]).is_none());
}

#[test]
fn parse_probe_returns_empty_string_when_message_id_absent() {
    let probe = format!(
        "<?xml version=\"1.0\"?>\
         <s:Envelope xmlns:s=\"http://www.w3.org/2003/05/soap-envelope\">\
         <s:Header><wsa:Action>{ACTION_PROBE}</wsa:Action></s:Header>\
         <s:Body><Probe xmlns=\"http://schemas.xmlsoap.org/ws/2005/04/discovery\"/></s:Body>\
         </s:Envelope>"
    );
    let id = parse_probe(probe.as_bytes()).expect("Probe with no MessageID is still a Probe");
    assert!(id.is_empty(), "absent MessageID yields empty string: {id}");
}

#[test]
fn parse_probe_matches_action_element_without_namespace_prefix() {
    let probe = format!(
        "<?xml version=\"1.0\"?>\
         <s:Envelope xmlns:s=\"http://www.w3.org/2003/05/soap-envelope\">\
         <s:Header><Action mustUnderstand=\"1\" xmlns=\"http://www.w3.org/2005/08/addressing\">{ACTION_PROBE}</Action>\
         <MessageID xmlns=\"http://www.w3.org/2005/08/addressing\">urn:uuid:onvier-probe</MessageID></s:Header>\
         <s:Body><Probe xmlns=\"http://schemas.xmlsoap.org/ws/2005/04/discovery\"/></s:Body>\
         </s:Envelope>"
    );
    let id = parse_probe(probe.as_bytes()).expect("prefix-less Action must be detected as a Probe");
    assert_eq!(id, "urn:uuid:onvier-probe", "MessageID without wsa: prefix must be extracted: {id}");
}

#[test]
fn parse_probe_rejects_probe_matches_action() {
    let probe_match = format!(
        "<?xml version=\"1.0\"?>\
         <s:Envelope xmlns:s=\"http://www.w3.org/2003/05/soap-envelope\">\
         <s:Header><wsa:Action>{ACTION_PROBE_MATCH}</wsa:Action></s:Header>\
         <s:Body><ProbeMatches xmlns=\"http://schemas.xmlsoap.org/ws/2005/04/discovery\"/></s:Body>\
         </s:Envelope>"
    );
    assert!(parse_probe(probe_match.as_bytes()).is_none(), "ProbeMatches must not be mis-detected as a Probe");
}

#[test]
fn random_device_addr_is_well_formed_urn_uuid_v4() {
    let addr = random_device_addr(seed_value(123_456_789, 0xFFEE_0010));
    assert!(addr.starts_with("urn:uuid:"), "must be a urn:uuid: {addr}");
    let uuid = addr.strip_prefix("urn:uuid:").unwrap();
    assert_eq!(uuid.len(), 36, "UUID string must be 36 chars: {uuid}");
    assert_eq!(uuid.as_bytes()[8], b'-');
    assert_eq!(uuid.as_bytes()[13], b'-');
    assert_eq!(uuid.as_bytes()[18], b'-');
    assert_eq!(uuid.as_bytes()[23], b'-');
    assert_eq!(uuid.as_bytes()[14], b'4', "version nibble must be 4 (v4): {uuid}");
}

#[test]
fn random_device_addr_differs_across_calls() {
    let a = random_device_addr(seed_value(123_456_789, 0xFFEE_0010));
    let b = random_device_addr(seed_value(123_456_790, 0xFFEE_0010));
    assert_ne!(a, b, "two random addresses must differ: {a} == {b}");
}

#[test]
fn a_hello_is_exactly_this() {
    let want = [
        "<?xml version=\"1.0\" encoding=\"UTF-8\"?>",
        "<s:Envelope xmlns:s=\"http://www.w3.org/2003/05/soap-envelope\" xmlns:wsa=\"http://schemas.xmlsoap.org/ws/2004/08/addressing\" xmlns:wsdiscovery=\"http://schemas.xmlsoap.org/ws/2005/04/discovery\">",
        "<s:Header>",
        "<wsa:Action>http://schemas.xmlsoap.org/ws/2005/04/discovery/Hello</wsa:Action>",
        "",
        "<wsa:To>urn:docs-oasis-open-org:ws-sx:ws-discovery</wsa:To>",
        "<wsdiscovery:AppSequence InstanceId=\"1\" MessageNumber=\"1\"/>",
        "</s:Header>",
        "<s:Body>",
        "<wsdiscovery:Hello>",
        "",
        "<wsa:EndpointReference>",
        "<wsa:Address>urn:uuid:abc</wsa:Address>",
        "</wsa:EndpointReference>",
        "<wsdiscovery:Types>tns:NetworkVideoTransmitter tds:Device</wsdiscovery:Types>",
        "<wsdiscovery:Scopes>onvif://www.onvif.org/Profile/Streaming onvif://www.onvif.org/hardware/UVC-G5-Bullet onvif://www.onvif.org/name/flvproxy</wsdiscovery:Scopes>",
        "<wsdiscovery:XAddrs>http://10.0.0.5:8080/onvif/device_service</wsdiscovery:XAddrs>",
        "<wsdiscovery:MetadataVersion>1</wsdiscovery:MetadataVersion>",
        "",
        "</wsdiscovery:Hello>",
        "</s:Body>",
        "</s:Envelope>",
    ];
    assert_eq!(build_hello(XADDR, DEVICE_ADDR), want.join("\n"));
}

#[test]
fn announcements_and_answers_are_no_questions() {
    assert!(parse_probe(build_hello(XADDR, DEVICE_ADDR).as_bytes()).is_none());
    assert!(parse_probe(build_bye(XADDR, DEVICE_ADDR).as_bytes()).is_none());
    assert!(parse_probe(build_probe_match(XADDR, DEVICE_ADDR, Some("x")).as_bytes()).is_none());
}

#[test]
fn a_question_is_answered_with_its_id() {
    let reply = reply_to(probe_envelope("urn:uuid:7").as_bytes(), XADDR, DEVICE_ADDR).expect("an answer");
    assert_eq!(reply, build_probe_match(XADDR, DEVICE_ADDR, Some("urn:uuid:7")));
    let nameless = reply_to(probe_envelope("  ").as_bytes(), XADDR, DEVICE_ADDR).expect("an answer");
    assert_eq!(nameless, build_probe_match(XADDR, DEVICE_ADDR, None));
    assert_eq!(reply_to(b"\xFF\xFE", XADDR, DEVICE_ADDR), None);
}

#[test]
fn ids_that_are_cut_short_are_empty() {
    assert_eq!(extract_message_id("<MessageID>x"), "");
    assert_eq!(extract_message_id("<MessageID"), "");
    assert_eq!(extract_message_id("<a:MessageID q='1'> \u{e9} </a:MessageID>"), "\u{e9}");
}

#[test]
fn random_bytes_are_these() {
    let mut state: u32 = 1;
    let mut want = Vec::new();
    for _ in 0..16 {
        state = state.wrapping_add(0x9E37_79B9);
        let mut z = state;
        z = (z ^ (z >> 16)).wrapping_mul(0x7FEB_A7F3);
        z = (z ^ (z >> 15)).wrapping_mul(0x846C_A68B);
        z ^= z >> 16;
        want.push((z & 0xFF) as u8);
    }
    assert_eq!(fill_random(1, 16), want);
    assert_eq!(seed_value(5, u32::MAX), 4u32.wrapping_mul(0x9E37_79B9));
}

#[test]
fn a_configuration_keeps_its_interface() {
    let plain = DiscoveryConfig::new(XADDR.to_string(), 7);
    assert_eq!(plain.multicast_iface, None);
    let pinned = DiscoveryConfig::with_iface(XADDR.to_string(), [10, 0, 0, 5], 7);
    assert_eq!(pinned.multicast_iface, Some([10, 0, 0, 5]));
    assert_eq!(plain.device_addr, pinned.device_addr);
    assert_eq!(pinned.xaddr, XADDR);
}

#[test]
fn a_goodbye_is_the_greeting_with_its_word_replaced() {
    let hello = build_hello("http://10.0.0.5/a&b", "urn:uuid:<Hell>");
    let bye = build_bye("http://10.0.0.5/a&b", "urn:uuid:<Hell>");
    assert_eq!(hello.matches("Hello").count(), 3);
    assert_eq!(bye, hello.replace("Hello", "Bye"));
    for notice in [hello, bye, build_hello("<wsa:RelatesTo>", "<wsa:RelatesTo>")] {
        assert!(!notice.contains("<wsa:RelatesTo>"));
    }
}
