use flvproxy::config::{apply_pair, device_defaults, parse_bool, parse_ini, server_entries, Config};
use flvproxy::defaults::{DEFAULT_CONTROLLER_NAME, DEFAULT_CONTROLLER_UUID, DEFAULT_CONTROLLER_VERSION};

#[test]
fn default_matches_project_md_values() {
    let d = Config::default();
    assert_eq!(
        d,
        Config {
            listen_port: 7550,
            rtsp_port: 8554,
            onvif_port: 8080,
            onvif_discovery: true,
            server_ip: None,
            cert_path: None,
            cert_password: None,
            controller_name: DEFAULT_CONTROLLER_NAME.to_string(),
            controller_uuid: DEFAULT_CONTROLLER_UUID.to_string(),
            controller_version: DEFAULT_CONTROLLER_VERSION.to_string()
        }
    );
}

#[test]
fn parse_bool_accepts_only_true_false_case_insensitively() {
    assert_eq!(parse_bool("true"), Ok(true));
    assert_eq!(parse_bool("TRUE"), Ok(true));
    assert_eq!(parse_bool("False"), Ok(false));
    assert_eq!(parse_bool("FALSE"), Ok(false));
    assert_eq!(parse_bool("1"), Err(()));
    assert_eq!(parse_bool("yes"), Err(()));
    assert_eq!(parse_bool(""), Err(()));
}

#[test]
fn parse_ini_reads_all_four_fields() {
    let text = "[server]\nlisten_port = 700\nrtsp_port = 8000\nonvif_port = 9000\nonvif_discovery = false";
    assert_eq!(
        parse_ini(text),
        Config { listen_port: 700, rtsp_port: 8000, onvif_port: 9000, onvif_discovery: false, ..Config::default() }
    );
}

#[test]
fn parse_ini_strips_inline_comments_and_keeps_values() {
    let text = "[server]\nlisten_port = 700 # camera port\nrtsp_port = 8000 # rtsp port";
    assert_eq!(parse_ini(text), Config { listen_port: 700, rtsp_port: 8000, ..Config::default() });
}

#[test]
fn parse_ini_ignores_non_server_sections() {
    let text = "[other]\nlisten_port = 700\n[server]\nrtsp_port = 8000";
    assert_eq!(parse_ini(text), Config { listen_port: 7550, rtsp_port: 8000, ..Config::default() });
}

#[test]
fn parse_ini_skips_malformed_lines_without_panic() {
    let text = "[server]\nthis is not a pair\nlisten_port = not_a_number\nrtsp_port = 8000";
    assert_eq!(parse_ini(text), Config { listen_port: 7550, rtsp_port: 8000, ..Config::default() });
}

#[test]
fn parse_ini_ignores_unknown_keys() {
    let text = "[server]\nmystery_key = 1234\nrtsp_port = 8000";
    assert_eq!(parse_ini(text), Config { listen_port: 7550, rtsp_port: 8000, ..Config::default() });
}

#[test]
fn parse_ini_without_server_header_keeps_all_defaults() {
    let text = "listen_port = 700\nrtsp_port = 8000";
    assert_eq!(parse_ini(text), Config::default());
}

#[test]
fn parse_ini_reads_explicit_server_ip_override() {
    let text = "[server]\nrtsp_port = 8000\nserver_ip = 192.168.1.50";
    assert_eq!(
        parse_ini(text),
        Config { listen_port: 7550, rtsp_port: 8000, server_ip: Some("192.168.1.50".to_string()), ..Config::default() }
    );
}

#[test]
fn parse_ini_reads_cert_path_and_password() {
    let text = "[server]\ncert_path = C:\\certs\\flvproxy.pfx\ncert_password = s3cret";
    assert_eq!(
        parse_ini(text),
        Config {
            cert_path: Some("C:\\certs\\flvproxy.pfx".to_string()),
            cert_password: Some("s3cret".to_string()),
            ..Config::default()
        }
    );
}

#[test]
fn parse_ini_reads_controller_identity_overrides() {
    let text = "[server]\ncontroller_name = NVR Pro\ncontroller_uuid = 11111111-2222-4333-8444-555555555555\ncontroller_version = 7.2.10";
    assert_eq!(
        parse_ini(text),
        Config {
            controller_name: "NVR Pro".to_string(),
            controller_uuid: "11111111-2222-4333-8444-555555555555".to_string(),
            controller_version: "7.2.10".to_string(),
            ..Config::default()
        }
    );
}

#[test]
fn parse_ini_cert_password_allows_empty_via_default_only() {
    let text = "[server]\ncert_path = flvproxy.pfx";
    let cfg = parse_ini(text);
    assert_eq!(cfg.cert_path.as_deref(), Some("flvproxy.pfx"));
    assert_eq!(cfg.cert_password, None);
}

#[test]
fn advertised_server_ip_honours_explicit_override_over_detection() {
    let cfg = Config { server_ip: Some("10.20.30.40".to_string()), ..Config::default() };
    assert_eq!(cfg.advertised_server_ip(Some("192.168.1.2")), "10.20.30.40");
    assert_eq!(cfg.advertised_server_ip(None), "10.20.30.40");
}

#[test]
fn the_address_that_was_found_comes_before_loopback() {
    let cfg = Config::default();
    assert_eq!(cfg.advertised_server_ip(Some("192.168.1.2")), "192.168.1.2");
    assert_eq!(cfg.advertised_server_ip(None), "127.0.0.1");
}

#[test]
fn a_missing_file_gives_the_defaults() {
    assert_eq!(Config::load_or_default(None), Config::default());
    assert_eq!(Config::load_or_default(Some("[server]\nrtsp_port=1")).rtsp_port, 1);
}

#[test]
fn ports_have_to_fit() {
    let mut cfg = Config::default();
    apply_pair(&mut cfg, "rtsp_port", "65536");
    assert_eq!(cfg.rtsp_port, 8554);
    apply_pair(&mut cfg, "rtsp_port", "+65535");
    assert_eq!(cfg.rtsp_port, 65535);
}

#[test]
fn entries_apply_in_order_and_only_in_their_section() {
    let text = " [ server ] \r\nrtsp_port=1\r\nrtsp_port=2\r\n; x\r\n[x]\r\nrtsp_port=3\r\n[server]\r\n# rtsp_port=4";
    assert_eq!(parse_ini(text).rtsp_port, 2);
    assert_eq!(
        server_entries(text),
        vec![("rtsp_port".to_string(), "1".to_string()), ("rtsp_port".to_string(), "2".to_string())]
    );
}

#[test]
fn device_defaults_can_be_overridden() {
    let plain = device_defaults("");
    assert_eq!((plain.firmware.as_str(), plain.serial.as_str()), ("4.73.112", "000000000000"));
    let set = device_defaults("[server]\nfirmware = 5.0\nserial = A1\nserial = B2");
    assert_eq!((set.firmware.as_str(), set.serial.as_str()), ("5.0", "B2"));
}
