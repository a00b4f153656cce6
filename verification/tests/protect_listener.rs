use flvproxy::protect_listener::{stream_name_for, AdoptionContext};

const REQUEST: &[u8] = b"GET /camera/1.0/ws HTTP/1.1\r\nHost: 10.0.0.9:7442\r\nDevice-ID: dev-1\r\nCamera-MAC: 28:70:4e:11:b5:31\r\n\r\n";

#[test]
fn the_request_names_camera_and_stream() {
    let context = AdoptionContext::from_request(REQUEST, Some("10.0.0.2"), "127.0.0.1");
    assert_eq!(context.device_id, "dev-1");
    assert_eq!(context.stream_name.as_deref(), Some("28704E11B531_0"));
    assert_eq!(context.stream_destination, "tcp://10.0.0.2:7550?retryInterval=1&connectTimeout=5");
}

#[test]
fn the_address_comes_from_the_host_header_next() {
    let context = AdoptionContext::from_request(REQUEST, None, "127.0.0.1");
    assert_eq!(context.stream_destination, "tcp://10.0.0.9:7550?retryInterval=1&connectTimeout=5");
    let nameless = AdoptionContext::from_request(b"GET / HTTP/1.1\r\nHost: cam\r\n\r\n", None, "127.0.0.1");
    assert_eq!(nameless.stream_destination, "tcp://127.0.0.1:7550?retryInterval=1&connectTimeout=5");
    assert_eq!(nameless.device_id, "<unknown>");
    assert_eq!(nameless.stream_name, None);
}

#[test]
fn names_have_no_colons() {
    assert_eq!(stream_name_for("AA:BB").as_deref(), Some("AABB_0"));
    assert_eq!(stream_name_for("::"), None);
    assert_eq!(stream_name_for(""), None);
}

#[test]
fn addresses_are_put_in_capitals() {
    let request = "GET / HTTP/1.1\r\nCamera-MAC: \u{df}a\r\n\r\n";
    let context = AdoptionContext::from_request(request.as_bytes(), None, "x");
    assert_eq!(context.stream_name.as_deref(), Some("SSA_0"));
}
