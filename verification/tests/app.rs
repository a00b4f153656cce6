use flvproxy::app::{
    cert_step, discovery_plan, parse_ipv4, startup_lines, usable_password, BootstrapError, CertAction, CertEvent,
    CertStage, DiscoveryPlan,
};
use flvproxy::server_stops::{join_step, JoinStep, JOIN_TIMEOUT_SECS};

#[test]
fn a_missing_certificate_is_made_once() {
    assert_eq!(cert_step(CertStage::Reading, CertEvent::Done), CertAction::Use);
    assert_eq!(cert_step(CertStage::Reading, CertEvent::Missing { writable: true }), CertAction::Generate);
    assert_eq!(cert_step(CertStage::Reading, CertEvent::Missing { writable: false }), CertAction::Fail);
    assert_eq!(cert_step(CertStage::Reading, CertEvent::Failed), CertAction::Fail);
    assert_eq!(cert_step(CertStage::Generating, CertEvent::Done), CertAction::ReadAgain);
    assert_eq!(cert_step(CertStage::Generating, CertEvent::Failed), CertAction::Fail);
    assert_eq!(cert_step(CertStage::Rereading, CertEvent::Done), CertAction::Use);
    assert_eq!(cert_step(CertStage::Rereading, CertEvent::Missing { writable: true }), CertAction::Fail);
}

#[test]
fn empty_passwords_are_none() {
    assert_eq!(usable_password(None), None);
    assert_eq!(usable_password(Some(String::new())), None);
    assert_eq!(usable_password(Some("p".to_string())), Some("p".to_string()));
}

#[test]
fn addresses_are_four_numbers() {
    assert_eq!(parse_ipv4("10.0.0.5"), Some([10, 0, 0, 5]));
    assert_eq!(parse_ipv4("255.255.255.255"), Some([255, 255, 255, 255]));
    assert_eq!(parse_ipv4("0.0.0.0"), Some([0, 0, 0, 0]));
    for s in ["256.0.0.1", "1.2.3", "1.2.3.4.5", "01.2.3.4", "", "a.b.c.d", "1..2.3", " 1.2.3.4", "+1.2.3.4", "1.2.3.0004"] {
        assert_eq!(parse_ipv4(s), None, "{s}");
    }
}

#[test]
fn discovery_is_planned() {
    assert_eq!(discovery_plan(false, Some(8080), "10.0.0.5"), DiscoveryPlan::Disabled);
    assert_eq!(discovery_plan(true, None, "10.0.0.5"), DiscoveryPlan::NoPort);
    assert_eq!(
        discovery_plan(true, Some(8080), "10.0.0.5"),
        DiscoveryPlan::Announce {
            xaddr: "http://10.0.0.5:8080/onvif/device_service".to_string(),
            iface: Some([10, 0, 0, 5])
        }
    );
    assert_eq!(
        discovery_plan(true, Some(1), "host"),
        DiscoveryPlan::Announce { xaddr: "http://host:1/onvif/device_service".to_string(), iface: None }
    );
}

#[test]
fn startup_is_told() {
    let lines = startup_lines(true, 7550, "10.0.0.5", 8554, Some(8080), true);
    assert!(lines.iter().any(|l| l.contains("rtsp://10.0.0.5:8554/stream")), "{lines:?}");
    assert!(lines.iter().any(|l| l.contains("7550")), "{lines:?}");
    assert_ne!(lines, startup_lines(true, 7550, "10.0.0.5", 8554, Some(8080), false));
    assert_ne!(lines, startup_lines(true, 7550, "10.0.0.5", 8554, None, true));
}

#[test]
fn startup_errors_name_the_file() {
    let named = |e: BootstrapError| {
        let text = e.message();
        assert!(text.contains("f.pfx") && text.contains("why"), "{text}");
        text
    };
    let (path, source) = ("f.pfx".to_string(), "why".to_string());
    let a = named(BootstrapError::LoggerOpen { path: path.clone(), source: source.clone() });
    let b = named(BootstrapError::CertRead { path: path.clone(), source: source.clone() });
    let c = named(BootstrapError::CertLoad { path, source });
    assert_ne!(a, b);
    assert_ne!(b, c);
}

#[test]
fn workers_are_waited_for_but_not_forever() {
    let limit = JOIN_TIMEOUT_SECS * 1000;
    assert_eq!(join_step(true, limit, limit), JoinStep::Reap);
    assert_eq!(join_step(false, 0, limit), JoinStep::Wait);
    assert_eq!(join_step(false, limit, limit), JoinStep::Detach);
}
