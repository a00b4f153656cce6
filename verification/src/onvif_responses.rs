//! The ONVIF answers: what each operation of the Device and Media services says, as SOAP 1.2.

use crate::calendar::{civil, utc_now};
use crate::camera_identity::IdentityView;
use crate::defaults::{DEFAULT_FIRMWARE, DEFAULT_SERIAL};
use crate::ieee754::{binary32_saturating, Binary32};
use crate::stream_state::{HubView, StreamState};
use crate::text::{chars_of, decimal, law_decimal_reads_back, push_decimal};
use crate::xml::{
    block, block_text, element_line, element_text, element_with, escaped, is_markup,
    law_escaped_text_holds_no_markup, namespace_text, push_element, push_element_with, push_line, push_namespace, xml_escape, NS_ADDRESSING, NS_ENVELOPE,
};
use vstd::prelude::*;

verus! {

/// The one media profile.
pub const PROFILE_TOKEN: &'static str = "Profile_1";

/// Picture width where the stream has not told.
pub const FALLBACK_WIDTH: u32 = 1920;

/// Picture height where the stream has not told.
pub const FALLBACK_HEIGHT: u32 = 1080;

/// Frame rate where the stream has not told.
pub const FALLBACK_FPS: u32 = 30;

/// Maker of the camera.
pub const MANUFACTURER: &'static str = "Ubiquiti";

/// Model of the camera where it has not told; the hardware id in any case.
pub const MODEL: &'static str = "UVC-G5-Bullet";

/// How long a stream's address stays valid.
pub const STREAM_URI_TIMEOUT: &'static str = "PT60S";

/// Path of the stream on the RTSP server.
pub const STREAM_URI_PATH: &'static str = "/stream";

/// ONVIF Device service.
pub const NS_DEVICE: &'static str = "http://www.onvif.org/ver10/device/wsdl";

/// ONVIF Media service.
pub const NS_MEDIA: &'static str = "http://www.onvif.org/ver10/media/wsdl";

/// ONVIF's common types.
pub const NS_SCHEMA: &'static str = "http://www.onvif.org/ver10/schema";

/// Path of the Device service.
pub const DEFAULT_DEVICE_SERVICE_PATH: &'static str = "/onvif/device_service";

/// Path of the Media service.
pub const DEFAULT_MEDIA_SERVICE_PATH: &'static str = "/onvif/media_service";

/// What the proxy says of itself over ONVIF.
#[derive(Debug, Clone)]
pub struct OnvifConfig {
    /// The address that it announces.
    pub server_ip: String,
    pub rtsp_port: u16,
    pub onvif_port: u16,
    pub device_service_path: &'static str,
    pub media_service_path: &'static str,
    pub firmware: String,
    /// The serial number, where the camera has not told its own.
    pub serial: String,
}

/// What the settings stand for.
#[verifier::ext_equal]
pub struct OnvifView {
    pub server_ip: Seq<char>,
    pub rtsp_port: u16,
    pub onvif_port: u16,
    pub device_service_path: Seq<char>,
    pub media_service_path: Seq<char>,
    pub firmware: Seq<char>,
    pub serial: Seq<char>,
}

impl View for OnvifConfig {
    type V = OnvifView;

    open spec fn view(&self) -> OnvifView {
        OnvifView {
            server_ip: self.server_ip@,
            rtsp_port: self.rtsp_port,
            onvif_port: self.onvif_port,
            device_service_path: self.device_service_path@,
            media_service_path: self.media_service_path@,
            firmware: self.firmware@,
            serial: self.serial@,
        }
    }
}

impl OnvifConfig {
    /// Settings with the given address and ports, and defaults for the rest.
    pub fn defaults_for(server_ip: String, rtsp_port: u16, onvif_port: u16) -> (r: OnvifConfig)
        ensures
            r@ == (OnvifView {
                server_ip: server_ip@,
                rtsp_port,
                onvif_port,
                device_service_path: DEFAULT_DEVICE_SERVICE_PATH@,
                media_service_path: DEFAULT_MEDIA_SERVICE_PATH@,
                firmware: DEFAULT_FIRMWARE@,
                serial: DEFAULT_SERIAL@,
            }),
    {
        OnvifConfig {
            server_ip,
            rtsp_port,
            onvif_port,
            device_service_path: DEFAULT_DEVICE_SERVICE_PATH,
            media_service_path: DEFAULT_MEDIA_SERVICE_PATH,
            firmware: DEFAULT_FIRMWARE.to_owned(),
            serial: DEFAULT_SERIAL.to_owned(),
        }
    }
}

/// A SOAP message with the given namespaces and body.
pub open spec fn message(namespaces: Seq<char>, body: Seq<char>) -> Seq<char> {
    "<?xml version=\"1.0\" encoding=\"UTF-8\"?>\n"@ + element_with(
        "s:Envelope"@,
        namespace_text("s"@, NS_ENVELOPE@) + namespaces,
        "\n"@ + block_text("s:Body"@, body),
    )
}

/// A Device service message.
pub open spec fn device_message(body: Seq<char>) -> Seq<char> {
    message(namespace_text("tds"@, NS_DEVICE@), body)
}

/// A Device service message that uses the common types.
pub open spec fn device_schema_message(body: Seq<char>) -> Seq<char> {
    message(namespace_text("tds"@, NS_DEVICE@) + namespace_text("tt"@, NS_SCHEMA@), body)
}

/// A Media service message.
pub open spec fn media_message(body: Seq<char>) -> Seq<char> {
    message(namespace_text("trt"@, NS_MEDIA@) + namespace_text("tt"@, NS_SCHEMA@), body)
}

/// Writes a SOAP message.
fn soap(namespaces: &str, body: &str) -> (r: String)
    ensures
        r@ == message(namespaces@, body@),
{
    let mut attributes = String::new();
    push_namespace(&mut attributes, "s", NS_ENVELOPE);
    assert(attributes@ =~= namespace_text("s"@, NS_ENVELOPE@));
    attributes.append(namespaces);
    let mut content = "\n".to_owned();
    let inner = block("s:Body", body);
    content.append(inner.as_str());
    let mut out = "<?xml version=\"1.0\" encoding=\"UTF-8\"?>\n".to_owned();
    push_element_with(&mut out, "s:Envelope", attributes.as_str(), content.as_str());
    out
}

/// Writes a Device service message.
fn device_soap(body: &str) -> (r: String)
    ensures
        r@ == device_message(body@),
{
    let mut namespaces = String::new();
    push_namespace(&mut namespaces, "tds", NS_DEVICE);
    assert(namespaces@ =~= namespace_text("tds"@, NS_DEVICE@));
    soap(namespaces.as_str(), body)
}

/// Writes a Device service message that uses the common types.
fn device_schema_soap(body: &str) -> (r: String)
    ensures
        r@ == device_schema_message(body@),
{
    let mut namespaces = String::new();
    push_namespace(&mut namespaces, "tds", NS_DEVICE);
    push_namespace(&mut namespaces, "tt", NS_SCHEMA);
    assert(namespaces@ =~= namespace_text("tds"@, NS_DEVICE@) + namespace_text("tt"@, NS_SCHEMA@));
    soap(namespaces.as_str(), body)
}

/// Writes a Media service message.
fn media_soap(body: &str) -> (r: String)
    ensures
        r@ == media_message(body@),
{
    let mut namespaces = String::new();
    push_namespace(&mut namespaces, "trt", NS_MEDIA);
    push_namespace(&mut namespaces, "tt", NS_SCHEMA);
    assert(namespaces@ =~= namespace_text("trt"@, NS_MEDIA@) + namespace_text("tt"@, NS_SCHEMA@));
    soap(namespaces.as_str(), body)
}

/// The decimal numeral of a number.
fn numeral(n: u64) -> (r: String)
    ensures
        r@ == decimal(n as nat),
{
    let mut out = String::new();
    push_decimal(&mut out, n);
    assert(out@ =~= decimal(n as nat));
    out
}

/// The answer to `GetEndpointReference`: a token that stays the same.
pub open spec fn endpoint_reference() -> Seq<char> {
    device_message(
        block_text(
            "tds:GetEndpointReferenceResponse"@,
            element_line("tds:Guid"@, "urn:uuid:flvproxy-000000000000"@),
        ),
    )
}

pub fn build_get_endpoint_reference() -> (r: String)
    ensures
        r@ == endpoint_reference(),
{
    let mut content = String::new();
    push_line(&mut content, "tds:Guid", "urn:uuid:flvproxy-000000000000");
    assert(content@ =~= element_line("tds:Guid"@, "urn:uuid:flvproxy-000000000000"@));
    let body = block("tds:GetEndpointReferenceResponse", content.as_str());
    device_soap(body.as_str())
}

/// The address of a service on the ONVIF server. What is configured is escaped.
pub open spec fn service_address(c: OnvifView, path: Seq<char>) -> Seq<char> {
    "http://"@ + escaped(c.server_ip) + ":"@ + decimal(c.onvif_port as nat) + path
}

fn service_url(cfg: &OnvifConfig, path: &str) -> (r: String)
    ensures
        r@ == service_address(cfg@, path@),
{
    let ip = xml_escape(cfg.server_ip.as_str());
    let mut out = "http://".to_owned();
    out.append(ip.as_str());
    out.append(":");
    push_decimal(&mut out, cfg.onvif_port as u64);
    out.append(path);
    out
}

/// One entry of the answer to `GetServices`.
pub open spec fn service_entry(namespace: Seq<char>, address: Seq<char>) -> Seq<char> {
    block_text(
        "tds:Service"@,
        element_line("tds:Namespace"@, namespace) + element_line("tds:XAddr"@, address) + element_line(
            "tds:Version"@,
            element_text("tt:Major"@, "20"@) + element_text("tt:Minor"@, "12"@),
        ),
    )
}

fn service_block(namespace: &str, address: &str) -> (r: String)
    ensures
        r@ == service_entry(namespace@, address@),
{
    let mut version = String::new();
    push_element(&mut version, "tt:Major", "20");
    push_element(&mut version, "tt:Minor", "12");
    assert(version@ =~= element_text("tt:Major"@, "20"@) + element_text("tt:Minor"@, "12"@));
    let mut content = String::new();
    push_line(&mut content, "tds:Namespace", namespace);
    push_line(&mut content, "tds:XAddr", address);
    push_line(&mut content, "tds:Version", version.as_str());
    assert(content@ =~= element_line("tds:Namespace"@, namespace@) + element_line("tds:XAddr"@, address@)
        + element_line("tds:Version"@, version@));
    block("tds:Service", content.as_str())
}

/// The answer to `GetServices`: where the two services are.
pub open spec fn services(c: OnvifView) -> Seq<char> {
    device_schema_message(
        block_text(
            "tds:GetServicesResponse"@,
            service_entry(NS_DEVICE@, service_address(c, c.device_service_path)) + service_entry(
                NS_MEDIA@,
                service_address(c, c.media_service_path),
            ),
        ),
    )
}

pub fn build_get_services(cfg: &OnvifConfig) -> (r: String)
    ensures
        r@ == services(cfg@),
{
    let device_url = service_url(cfg, cfg.device_service_path);
    let media_url = service_url(cfg, cfg.media_service_path);
    let mut content = service_block(NS_DEVICE, device_url.as_str());
    let media = service_block(NS_MEDIA, media_url.as_str());
    content.append(media.as_str());
    let body = block("tds:GetServicesResponse", content.as_str());
    device_schema_soap(body.as_str())
}

/// An element that holds a number.
pub open spec fn number_element(name: Seq<char>, n: int) -> Seq<char> {
    element_text(name, decimal(n as nat))
}

fn push_number(out: &mut String, name: &str, n: u64)
    ensures
        final(out)@ == old(out)@ + number_element(name@, n as int),
{
    let text = numeral(n);
    push_element(out, name, text.as_str());
}

/// The answer to `GetSystemDateAndTime`: the UTC date and time `secs` seconds after
/// 1970-01-01T00:00:00.
pub open spec fn system_date_and_time(secs: int) -> Seq<char> {
    let date = civil(secs / 86400);
    device_schema_message(
        block_text(
            "tds:GetSystemDateAndTimeResponse"@,
            block_text(
                "tt:SystemDateAndTime"@,
                element_line("tt:DateTimeType"@, "NTP"@) + element_line("tt:DayTimeSavings"@, "false"@)
                    + element_line("tt:TimeZone"@, element_text("tt:TZ"@, "GMT0"@)) + block_text(
                    "tt:UTCDateTime"@,
                    element_line(
                        "tt:Date"@,
                        number_element("tt:Year"@, date.0) + number_element("tt:Month"@, date.1)
                            + number_element("tt:Day"@, date.2),
                    ) + element_line(
                        "tt:Time"@,
                        number_element("tt:Hour"@, secs % 86400 / 3600) + number_element(
                            "tt:Minute"@,
                            secs % 3600 / 60,
                        ) + number_element("tt:Second"@, secs % 60),
                    ),
                ),
            ),
        ),
    )
}

pub fn build_get_system_date_and_time(now_secs: i64) -> (r: String)
    requires
        now_secs >= 0,
    ensures
        r@ == system_date_and_time(now_secs as int),
{
    let (year, month, day, hour, minute, second) = utc_now(now_secs);
    let mut date = String::new();
    push_number(&mut date, "tt:Year", year as u64);
    push_number(&mut date, "tt:Month", month as u64);
    push_number(&mut date, "tt:Day", day as u64);
    let mut time = String::new();
    push_number(&mut time, "tt:Hour", hour as u64);
    push_number(&mut time, "tt:Minute", minute as u64);
    push_number(&mut time, "tt:Second", second as u64);
    let ghost c = civil(now_secs as int / 86400);
    assert(date@ =~= number_element("tt:Year"@, c.0) + number_element("tt:Month"@, c.1) + number_element(
        "tt:Day"@,
        c.2,
    ));
    assert(time@ =~= number_element("tt:Hour"@, now_secs as int % 86400 / 3600) + number_element(
        "tt:Minute"@,
        now_secs as int % 3600 / 60,
    ) + number_element("tt:Second"@, now_secs as int % 60));
    let mut instant = String::new();
    push_line(&mut instant, "tt:Date", date.as_str());
    push_line(&mut instant, "tt:Time", time.as_str());
    assert(instant@ =~= element_line("tt:Date"@, date@) + element_line("tt:Time"@, time@));
    let utc = block("tt:UTCDateTime", instant.as_str());
    let mut zone = String::new();
    push_element(&mut zone, "tt:TZ", "GMT0");
    assert(zone@ =~= element_text("tt:TZ"@, "GMT0"@));
    let mut system = String::new();
    push_line(&mut system, "tt:DateTimeType", "NTP");
    push_line(&mut system, "tt:DayTimeSavings", "false");
    push_line(&mut system, "tt:TimeZone", zone.as_str());
    system.append(utc.as_str());
    assert(system@ =~= element_line("tt:DateTimeType"@, "NTP"@) + element_line("tt:DayTimeSavings"@, "false"@)
        + element_line("tt:TimeZone"@, zone@) + utc@);
    let inner = block("tt:SystemDateAndTime", system.as_str());
    let body = block("tds:GetSystemDateAndTimeResponse", inner.as_str());
    device_schema_soap(body.as_str())
}

/// The answer to `GetCapabilities`: where the two services are.
pub open spec fn capabilities(c: OnvifView) -> Seq<char> {
    device_schema_message(
        block_text(
            "tds:GetCapabilitiesResponse"@,
            block_text(
                "tt:Capabilities"@,
                element_line(
                    "tt:Device"@,
                    element_text("tt:XAddrs"@, service_address(c, c.device_service_path)),
                ) + element_line("tt:Media"@, element_text("tt:XAddrs"@, service_address(c, c.media_service_path))),
            ),
        ),
    )
}

pub fn build_get_capabilities(cfg: &OnvifConfig) -> (r: String)
    ensures
        r@ == capabilities(cfg@),
{
    let device_url = service_url(cfg, cfg.device_service_path);
    let media_url = service_url(cfg, cfg.media_service_path);
    let mut device = String::new();
    push_element(&mut device, "tt:XAddrs", device_url.as_str());
    assert(device@ =~= element_text("tt:XAddrs"@, device_url@));
    let mut media = String::new();
    push_element(&mut media, "tt:XAddrs", media_url.as_str());
    assert(media@ =~= element_text("tt:XAddrs"@, media_url@));
    let mut content = String::new();
    push_line(&mut content, "tt:Device", device.as_str());
    push_line(&mut content, "tt:Media", media.as_str());
    assert(content@ =~= element_line("tt:Device"@, device@) + element_line("tt:Media"@, media@));
    let inner = block("tt:Capabilities", content.as_str());
    let body = block("tds:GetCapabilitiesResponse", inner.as_str());
    device_schema_soap(body.as_str())
}

/// The serial number that is told: the camera's, once it is known.
pub open spec fn told_serial(c: OnvifView, identity: Option<IdentityView>) -> Seq<char> {
    match identity {
        Some(i) => i.serial,
        None => c.serial,
    }
}

/// The model that is told: the camera's, once it is known.
pub open spec fn told_model(identity: Option<IdentityView>) -> Seq<char> {
    match identity {
        Some(i) => if i.model.len() > 0 {
            i.model
        } else {
            MODEL@
        },
        None => MODEL@,
    }
}

/// The answer to `GetDeviceInformation`: what the camera is. What is configured or told is escaped.
pub open spec fn device_information(c: OnvifView, identity: Option<IdentityView>) -> Seq<char> {
    device_message(
        block_text(
            "tds:GetDeviceInformationResponse"@,
            element_line("tds:Manufacturer"@, escaped(MANUFACTURER@)) + element_line(
                "tds:Model"@,
                escaped(told_model(identity)),
            ) + element_line("tds:FirmwareVersion"@, escaped(c.firmware)) + element_line(
                "tds:SerialNumber"@,
                escaped(told_serial(c, identity)),
            ) + element_line("tds:HardwareId"@, escaped(MODEL@)),
        ),
    )
}

pub fn build_get_device_information(cfg: &OnvifConfig, state: &StreamState) -> (r: String)
    ensures
        r@ == device_information(cfg@, state@.camera_identity),
{
    let identity = state.camera_identity();
    let (serial, model) = match &identity {
        Some(i) => {
            let model_chars: usize = chars_of(i.model.as_str()).len();
            (xml_escape(i.serial.as_str()), if model_chars > 0 {
                xml_escape(i.model.as_str())
            } else {
                xml_escape(MODEL)
            })
        },
        None => (xml_escape(cfg.serial.as_str()), xml_escape(MODEL)),
    };
    let manufacturer = xml_escape(MANUFACTURER);
    let firmware = xml_escape(cfg.firmware.as_str());
    let hardware = xml_escape(MODEL);
    let mut content = String::new();
    push_line(&mut content, "tds:Manufacturer", manufacturer.as_str());
    push_line(&mut content, "tds:Model", model.as_str());
    push_line(&mut content, "tds:FirmwareVersion", firmware.as_str());
    push_line(&mut content, "tds:SerialNumber", serial.as_str());
    push_line(&mut content, "tds:HardwareId", hardware.as_str());
    assert(content@ =~= element_line("tds:Manufacturer"@, manufacturer@) + element_line("tds:Model"@, model@)
        + element_line("tds:FirmwareVersion"@, firmware@) + element_line("tds:SerialNumber"@, serial@)
        + element_line("tds:HardwareId"@, hardware@));
    let body = block("tds:GetDeviceInformationResponse", content.as_str());
    device_soap(body.as_str())
}

/// What is known, or else a fallback.
pub open spec fn or_fallback(value: Option<u32>, fallback: u32) -> u32 {
    match value {
        Some(v) => v,
        None => fallback,
    }
}

/// The frame rate that is told: what the stream said, without its fraction.
pub open spec fn told_rate(fps: Option<Binary32>) -> u32 {
    match fps {
        Some(f) => binary32_saturating(f.bits),
        None => FALLBACK_FPS,
    }
}

/// Width, height and frame rate that are told.
pub open spec fn told_format(hub: HubView) -> (u32, u32, u32) {
    match hub.codec {
        Some(c) => (
            or_fallback(c.width, FALLBACK_WIDTH),
            or_fallback(c.height, FALLBACK_HEIGHT),
            told_rate(c.fps),
        ),
        None => (FALLBACK_WIDTH, FALLBACK_HEIGHT, FALLBACK_FPS),
    }
}

/// The answer to `GetProfiles`: one H.264 profile of the given size and rate.
pub open spec fn profiles(width: u32, height: u32, fps: u32) -> Seq<char> {
    media_message(
        block_text(
            "trt:GetProfilesResponse"@,
            element_with(
                "trt:Profiles"@,
                " token=\""@ + PROFILE_TOKEN@ + "\""@,
                "\n"@ + block_text(
                    "tt:VideoEncoderConfiguration"@,
                    element_line("tt:Encoding"@, "H264"@) + element_line(
                        "tt:Resolution"@,
                        number_element("tt:Width"@, width as int) + number_element("tt:Height"@, height as int),
                    ) + element_line("tt:RateControl"@, number_element("tt:FrameRateLimit"@, fps as int)),
                ),
            ) + "\n"@,
        ),
    )
}

pub fn build_get_profiles(_cfg: &OnvifConfig, state: &StreamState) -> (r: String)
    ensures
        r@ == ({
            let format = told_format(state@);
            profiles(format.0, format.1, format.2)
        }),
{
    let (width, height, fps): (u32, u32, u32) = match state.snapshot_metadata() {
        Some(meta) => {
            let width: u32 = match meta.width {
                Some(w) => w,
                None => FALLBACK_WIDTH,
            };
            let height: u32 = match meta.height {
                Some(h) => h,
                None => FALLBACK_HEIGHT,
            };
            let fps: u32 = match meta.fps {
                Some(f) => f.to_u32(),
                None => FALLBACK_FPS,
            };
            (width, height, fps)
        },
        None => (FALLBACK_WIDTH, FALLBACK_HEIGHT, FALLBACK_FPS),
    };
    let mut resolution = String::new();
    push_number(&mut resolution, "tt:Width", width as u64);
    push_number(&mut resolution, "tt:Height", height as u64);
    assert(resolution@ =~= number_element("tt:Width"@, width as int) + number_element("tt:Height"@, height as int));
    let mut rate = String::new();
    push_number(&mut rate, "tt:FrameRateLimit", fps as u64);
    assert(rate@ =~= number_element("tt:FrameRateLimit"@, fps as int));
    let mut video = String::new();
    push_line(&mut video, "tt:Encoding", "H264");
    push_line(&mut video, "tt:Resolution", resolution.as_str());
    push_line(&mut video, "tt:RateControl", rate.as_str());
    assert(video@ =~= element_line("tt:Encoding"@, "H264"@) + element_line("tt:Resolution"@, resolution@)
        + element_line("tt:RateControl"@, rate@));
    let encoder = block("tt:VideoEncoderConfiguration", video.as_str());
    let mut content = "\n".to_owned();
    content.append(encoder.as_str());
    let mut token = " token=\"".to_owned();
    token.append(PROFILE_TOKEN);
    token.append("\"");
    let mut profile = String::new();
    push_element_with(&mut profile, "trt:Profiles", token.as_str(), content.as_str());
    profile.append("\n");
    assert(profile@ =~= element_with("trt:Profiles"@, token@, content@) + "\n"@);
    let body = block("trt:GetProfilesResponse", profile.as_str());
    media_soap(body.as_str())
}

/// The address of the stream. What is configured is escaped.
pub open spec fn stream_address(c: OnvifView) -> Seq<char> {
    "rtsp://"@ + escaped(c.server_ip) + ":"@ + decimal(c.rtsp_port as nat) + STREAM_URI_PATH@
}

/// The address of the stream on the RTSP server.
pub fn rtsp_stream_uri(cfg: &OnvifConfig) -> (r: String)
    ensures
        r@ == stream_address(cfg@),
{
    let ip = xml_escape(cfg.server_ip.as_str());
    let mut out = "rtsp://".to_owned();
    out.append(ip.as_str());
    out.append(":");
    push_decimal(&mut out, cfg.rtsp_port as u64);
    out.append(STREAM_URI_PATH);
    out
}

/// The answer of an operation that asks where the stream is.
pub open spec fn media_uri(response: Seq<char>, uri: Seq<char>) -> Seq<char> {
    media_message(
        block_text(
            response,
            block_text(
                "trt:MediaUri"@,
                element_line("tt:Uri"@, uri) + element_line("tt:InvalidAfterConnect"@, "false"@) + element_line(
                    "tt:InvalidAfterReboot"@,
                    "false"@,
                ) + element_line("tt:Timeout"@, STREAM_URI_TIMEOUT@),
            ),
        ),
    )
}

fn media_uri_soap(response: &str, uri: &str) -> (r: String)
    ensures
        r@ == media_uri(response@, uri@),
{
    let mut content = String::new();
    push_line(&mut content, "tt:Uri", uri);
    push_line(&mut content, "tt:InvalidAfterConnect", "false");
    push_line(&mut content, "tt:InvalidAfterReboot", "false");
    push_line(&mut content, "tt:Timeout", STREAM_URI_TIMEOUT);
    assert(content@ =~= element_line("tt:Uri"@, uri@) + element_line("tt:InvalidAfterConnect"@, "false"@)
        + element_line("tt:InvalidAfterReboot"@, "false"@) + element_line("tt:Timeout"@, STREAM_URI_TIMEOUT@));
    let inner = block("trt:MediaUri", content.as_str());
    let body = block(response, inner.as_str());
    media_soap(body.as_str())
}

/// Answers `GetStreamUri`.
pub fn build_get_stream_uri(cfg: &OnvifConfig) -> (r: String)
    ensures
        r@ == media_uri("trt:GetStreamUriResponse"@, stream_address(cfg@)),
{
    let uri = rtsp_stream_uri(cfg);
    media_uri_soap("trt:GetStreamUriResponse", uri.as_str())
}

/// Answers `GetSnapshotUri`. There are no still pictures, so it is the stream that is told.
pub fn build_get_snapshot_uri(cfg: &OnvifConfig) -> (r: String)
    ensures
        r@ == media_uri("trt:GetSnapshotUriResponse"@, stream_address(cfg@)),
{
    let uri = rtsp_stream_uri(cfg);
    media_uri_soap("trt:GetSnapshotUriResponse", uri.as_str())
}

/// The answer to `GetAudioOutputConfigurations`: there are none.
pub open spec fn audio_output_configurations() -> Seq<char> {
    media_message(block_text("trt:GetAudioOutputConfigurationsResponse"@, "<trt:Configurations/>\n"@))
}

pub fn build_get_audio_output_configurations() -> (r: String)
    ensures
        r@ == audio_output_configurations(),
{
    let body = block("trt:GetAudioOutputConfigurationsResponse", "<trt:Configurations/>\n");
    media_soap(body.as_str())
}

/// The answer to `SetSynchronizationPoint`: done.
pub open spec fn synchronization_point() -> Seq<char> {
    device_message("<tds:SetSynchronizationPointResponse/>\n"@)
}

pub fn build_set_synchronization_point() -> (r: String)
    ensures
        r@ == synchronization_point(),
{
    device_soap("<tds:SetSynchronizationPointResponse/>\n")
}

/// The answer to what is not known.
pub open spec fn fault() -> Seq<char> {
    message(
        namespace_text("wsa"@, NS_ADDRESSING@),
        block_text(
            "s:Fault"@,
            element_line(
                "s:Code"@,
                element_text("s:Value"@, "s:Sender"@) + element_text(
                    "s:Subcode"@,
                    element_text("s:Value"@, "wsa:ActionNotSupported"@),
                ),
            ) + element_line(
                "s:Reason"@,
                element_with("s:Text"@, " xml:lang=\"en\""@, "The action is not supported by the service."@),
            ),
        ),
    )
}

pub fn build_fault() -> (r: String)
    ensures
        r@ == fault(),
{
    let mut value = String::new();
    push_element(&mut value, "s:Value", "wsa:ActionNotSupported");
    assert(value@ =~= element_text("s:Value"@, "wsa:ActionNotSupported"@));
    let mut code = String::new();
    push_element(&mut code, "s:Value", "s:Sender");
    push_element(&mut code, "s:Subcode", value.as_str());
    assert(code@ =~= element_text("s:Value"@, "s:Sender"@) + element_text("s:Subcode"@, value@));
    let mut reason = String::new();
    push_element_with(
        &mut reason,
        "s:Text",
        " xml:lang=\"en\"",
        "The action is not supported by the service.",
    );
    assert(reason@ =~= element_with(
        "s:Text"@,
        " xml:lang=\"en\""@,
        "The action is not supported by the service."@,
    ));
    let mut content = String::new();
    push_line(&mut content, "s:Code", code.as_str());
    push_line(&mut content, "s:Reason", reason.as_str());
    assert(content@ =~= element_line("s:Code"@, code@) + element_line("s:Reason"@, reason@));
    let body = block("s:Fault", content.as_str());
    let mut namespaces = String::new();
    push_namespace(&mut namespaces, "wsa", NS_ADDRESSING);
    assert(namespaces@ =~= namespace_text("wsa"@, NS_ADDRESSING@));
    soap(namespaces.as_str(), body.as_str())
}

/// Whatever address is configured, the stream's address holds no markup: it cannot break out of the
/// element that holds it.
pub proof fn law_stream_address_holds_no_markup(c: OnvifView)
    ensures
        forall|i: int| 0 <= i < stream_address(c).len() ==> !is_markup(#[trigger] stream_address(c)[i]),
{
    let ip = escaped(c.server_ip);
    let port = decimal(c.rtsp_port as nat);
    law_escaped_text_holds_no_markup(c.server_ip);
    law_decimal_reads_back(c.rtsp_port as nat);
    reveal_strlit("rtsp://");
    reveal_strlit(":");
    reveal_strlit("/stream");
    let first = "rtsp://"@ + ip;
    let second = first + ":"@;
    let third = second + port;
    assert forall|i: int| 0 <= i < stream_address(c).len() implies !is_markup(#[trigger] stream_address(c)[i]) by {
        if i < 7 {
            assert(stream_address(c)[i] == "rtsp://"@[i]);
        } else if i < first.len() {
            assert(stream_address(c)[i] == ip[i - 7]);
        } else if i < second.len() {
            assert(stream_address(c)[i] == ':');
        } else if i < third.len() {
            assert(stream_address(c)[i] == port[i - second.len()]);
        } else {
            assert(stream_address(c)[i] == "/stream"@[i - third.len()]);
        }
    }
}

} // verus!
