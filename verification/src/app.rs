//! The program as a whole: how it gets its certificate, what it announces, and what it says when it
//! has started.

use crate::onvif_responses::DEFAULT_DEVICE_SERVICE_PATH;
use crate::text::{
    all_digits, chars_of, decimal, digits_value, is_digit, parse_unsigned, pieces, push_decimal, split, text_views,
};
use vstd::prelude::*;

verus! {

/// Why the program could not be set up.
#[derive(Debug, Clone, PartialEq, Eq)]
pub enum BootstrapError {
    /// The log could not be opened.
    LoggerOpen { path: String, source: String },
    /// The certificate could not be read.
    CertRead { path: String, source: String },
    /// The certificate could not be used.
    CertLoad { path: String, source: String },
}

/// How an error is told.
pub open spec fn bootstrap_text(e: BootstrapError) -> Seq<char> {
    match e {
        BootstrapError::LoggerOpen { path, source } => "cannot open log "@ + path@ + ": "@ + source@,
        BootstrapError::CertRead { path, source } => "cannot read cert "@ + path@ + ": "@ + source@
            + "; run `flvproxy --install` to auto-generate a self-signed PFX, or supply one via cert_path / cert_password in flvproxy.ini"@,
        BootstrapError::CertLoad { path, source } => "failed to load TLS cert from "@ + path@ + ": "@ + source@,
    }
}

impl BootstrapError {
    /// The error in words.
    pub fn message(&self) -> (r: String)
        ensures
            r@ == bootstrap_text(*self),
    {
        match self {
            BootstrapError::LoggerOpen { path, source } => {
                let mut out = "cannot open log ".to_owned();
                out.append(path.as_str());
                out.append(": ");
                out.append(source.as_str());
                out
            },
            BootstrapError::CertRead { path, source } => {
                let mut out = "cannot read cert ".to_owned();
                out.append(path.as_str());
                out.append(": ");
                out.append(source.as_str());
                out.append(
                    "; run `flvproxy --install` to auto-generate a self-signed PFX, or supply one via cert_path / cert_password in flvproxy.ini",
                );
                out
            },
            BootstrapError::CertLoad { path, source } => {
                let mut out = "failed to load TLS cert from ".to_owned();
                out.append(path.as_str());
                out.append(": ");
                out.append(source.as_str());
                out
            },
        }
    }
}

/// How far the search for a certificate has come.
#[derive(Debug, Clone, Copy, PartialEq, Eq, Structural)]
pub enum CertStage {
    /// The file is read.
    Reading,
    /// A certificate is made, for there was no file.
    Generating,
    /// The file that was made is read.
    Rereading,
}

/// How a part of the search went.
#[derive(Debug, Clone, Copy, PartialEq, Eq, Structural)]
pub enum CertEvent {
    Done,
    /// There is no file, and whether one could be written there.
    Missing { writable: bool },
    Failed,
}

/// What to do about the certificate.
#[derive(Debug, Clone, Copy, PartialEq, Eq, Structural)]
pub enum CertAction {
    /// Use what was read.
    Use,
    /// Make one.
    Generate,
    /// Read what was made.
    ReadAgain,
    /// Give up.
    Fail,
}

/// Decides what to do about the certificate: one is made only where there was none and it can be
/// written, and only once.
pub fn cert_step(stage: CertStage, event: CertEvent) -> (r: CertAction)
    ensures
        r == (match (stage, event) {
            (CertStage::Reading, CertEvent::Done) => CertAction::Use,
            (CertStage::Reading, CertEvent::Missing { writable: true }) => CertAction::Generate,
            (CertStage::Generating, CertEvent::Done) => CertAction::ReadAgain,
            (CertStage::Rereading, CertEvent::Done) => CertAction::Use,
            _ => CertAction::Fail,
        }),
{
    match (stage, event) {
        (CertStage::Reading, CertEvent::Done) => CertAction::Use,
        (CertStage::Reading, CertEvent::Missing { writable: true }) => CertAction::Generate,
        (CertStage::Generating, CertEvent::Done) => CertAction::ReadAgain,
        (CertStage::Rereading, CertEvent::Done) => CertAction::Use,
        _ => CertAction::Fail,
    }
}

/// The password of the certificate; an empty one is none.
pub fn usable_password(password: Option<String>) -> (r: Option<String>)
    ensures
        match password {
            Some(p) => if p@.len() > 0 {
                r matches Some(q) && q@ == p@
            } else {
                r is None
            },
            None => r is None,
        },
{
    match password {
        Some(p) => {
            let count: usize = chars_of(p.as_str()).len();
            if count > 0 {
                Some(p)
            } else {
                None
            }
        },
        None => None,
    }
}

/// The number that one part of an IPv4 address stands for: one to three digits, without leading
/// zeros, no more than 255.
pub open spec fn octet(s: Seq<char>) -> Option<u8> {
    if 1 <= s.len() <= 3 && all_digits(s) && (s.len() == 1 || s[0] != '0') && digits_value(s) <= 255 {
        Some(digits_value(s) as u8)
    } else {
        None
    }
}

/// The four numbers of an IPv4 address.
pub open spec fn ipv4_of(s: Seq<char>) -> Option<[u8; 4]> {
    let parts = pieces(s, seq!['.']);
    if parts.len() != 4 {
        None
    } else {
        match (octet(parts[0]), octet(parts[1]), octet(parts[2]), octet(parts[3])) {
            (Some(a), Some(b), Some(c), Some(d)) => Some([a, b, c, d]),
            _ => None,
        }
    }
}

fn read_octet(v: &[char]) -> (r: Option<u8>)
    ensures
        r == octet(v@),
{
    let len: usize = v.len();
    if len == 0 || len > 3 || v[0] == '+' {
        proof {
            if len > 0 && v@[0] == '+' {
                assert(!is_digit(v@[0]));
            }
        }
        return None;
    }
    if len > 1 && v[0] == '0' {
        return None;
    }
    match parse_unsigned(v, 255) {
        Some(n) => Some(n as u8),
        None => None,
    }
}

/// Reads an IPv4 address.
pub fn parse_ipv4(s: &str) -> (r: Option<[u8; 4]>)
    ensures
        r == ipv4_of(s@),
{
    let chars = chars_of(s);
    let dot: [char; 1] = ['.'];
    assert(dot@ =~= seq!['.']);
    let parts = split(chars.as_slice(), dot.as_slice());
    let ghost views = text_views(parts@);
    assert(views.len() == parts@.len());
    if parts.len() != 4 {
        return None;
    }
    assert(views[0] == parts@[0]@ && views[1] == parts@[1]@ && views[2] == parts@[2]@ && views[3] == parts@[3]@);
    let a = read_octet(parts[0].as_slice());
    let b = read_octet(parts[1].as_slice());
    let c = read_octet(parts[2].as_slice());
    let d = read_octet(parts[3].as_slice());
    match (a, b, c, d) {
        (Some(a), Some(b), Some(c), Some(d)) => Some([a, b, c, d]),
        _ => None,
    }
}

/// Whether and how the proxy is announced.
#[derive(Debug, Clone, PartialEq, Eq)]
pub enum DiscoveryPlan {
    /// It is not to be.
    Disabled,
    /// There is nothing to announce: the ONVIF server has no port.
    NoPort,
    /// Under this address, on this interface; on the system's choice where the address names none.
    Announce { xaddr: String, iface: Option<[u8; 4]> },
}

/// The address of the Device service.
pub open spec fn device_service_url(server_ip: Seq<char>, port: u16) -> Seq<char> {
    "http://"@ + server_ip + ":"@ + decimal(port as nat) + DEFAULT_DEVICE_SERVICE_PATH@
}

/// Decides whether and how the proxy is announced.
pub fn discovery_plan(enabled: bool, bound_port: Option<u16>, server_ip: &str) -> (r: DiscoveryPlan)
    ensures
        if !enabled {
            r is Disabled
        } else {
            match bound_port {
                None => r is NoPort,
                Some(port) => r matches DiscoveryPlan::Announce { xaddr, iface } && xaddr@ == device_service_url(
                    server_ip@,
                    port,
                ) && iface == ipv4_of(server_ip@),
            }
        },
{
    if !enabled {
        return DiscoveryPlan::Disabled;
    }
    match bound_port {
        None => DiscoveryPlan::NoPort,
        Some(port) => {
            let mut xaddr = "http://".to_owned();
            xaddr.append(server_ip);
            xaddr.append(":");
            push_decimal(&mut xaddr, port as u64);
            xaddr.append(DEFAULT_DEVICE_SERVICE_PATH);
            DiscoveryPlan::Announce { xaddr, iface: parse_ipv4(server_ip) }
        },
    }
}

/// What the program says of the camera's port.
pub open spec fn camera_line(on_windows: bool, listen_port: u16) -> Seq<char> {
    if on_windows {
        "listening camera: 7550=upflv + 7442=avclient"@
    } else {
        "listening camera=:"@ + decimal(listen_port as nat) + " (plain tcp)"@
    }
}

/// What the program says of the stream.
pub open spec fn rtsp_line(server_ip: Seq<char>, rtsp_port: u16) -> Seq<char> {
    "listening rtsp=rtsp://"@ + server_ip + ":"@ + decimal(rtsp_port as nat) + "/stream"@
}

/// What the program says of the ONVIF server.
pub open spec fn onvif_line(server_ip: Seq<char>, bound_port: Option<u16>) -> Seq<char> {
    match bound_port {
        Some(port) => "listening onvif=http://"@ + server_ip + ":"@ + decimal(port as nat)
            + "/onvif/device_service (+ /onvif/media_service)"@,
        None => "listening onvif=disabled (bind failed)"@,
    }
}

/// What the program says of discovery.
pub open spec fn discovery_line(enabled: bool) -> Seq<char> {
    "wsdiscovery="@ + (if enabled {
        "on"@
    } else {
        "off"@
    }) + " (udp 239.255.255.250:3702)"@
}

/// What lines stand for.
pub open spec fn line_views(v: Seq<String>) -> Seq<Seq<char>> {
    Seq::new(v.len(), |i: int| v[i]@)
}

/// What the program says when it has started.
pub fn startup_lines(
    on_windows: bool,
    listen_port: u16,
    server_ip: &str,
    rtsp_port: u16,
    bound_port: Option<u16>,
    discovery: bool,
) -> (r: Vec<String>)
    ensures
        line_views(r@) == seq![
            camera_line(on_windows, listen_port),
            rtsp_line(server_ip@, rtsp_port),
            onvif_line(server_ip@, bound_port),
            discovery_line(discovery),
            "advertised ip="@ + server_ip@,
        ],
{
    let camera = if on_windows {
        "listening camera: 7550=upflv + 7442=avclient".to_owned()
    } else {
        let mut line = "listening camera=:".to_owned();
        push_decimal(&mut line, listen_port as u64);
        line.append(" (plain tcp)");
        line
    };
    let mut rtsp = "listening rtsp=rtsp://".to_owned();
    rtsp.append(server_ip);
    rtsp.append(":");
    push_decimal(&mut rtsp, rtsp_port as u64);
    rtsp.append("/stream");
    let onvif = match bound_port {
        Some(port) => {
            let mut line = "listening onvif=http://".to_owned();
            line.append(server_ip);
            line.append(":");
            push_decimal(&mut line, port as u64);
            line.append("/onvif/device_service (+ /onvif/media_service)");
            line
        },
        None => "listening onvif=disabled (bind failed)".to_owned(),
    };
    let mut announced = "wsdiscovery=".to_owned();
    if discovery {
        announced.append("on");
    } else {
        announced.append("off");
    }
    announced.append(" (udp 239.255.255.250:3702)");
    let mut address = "advertised ip=".to_owned();
    address.append(server_ip);
    let mut out: Vec<String> = Vec::new();
    out.push(camera);
    out.push(rtsp);
    out.push(onvif);
    out.push(announced);
    out.push(address);
    assert(line_views(out@) =~= seq![
        camera_line(on_windows, listen_port),
        rtsp_line(server_ip@, rtsp_port),
        onvif_line(server_ip@, bound_port),
        discovery_line(discovery),
        "advertised ip="@ + server_ip@,
    ]);
    out
}

} // verus!
