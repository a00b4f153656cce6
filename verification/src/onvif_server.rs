//! The ONVIF server's decisions: which operation a request asks for, how it is answered, and when a
//! request has arrived.

use crate::bytes::append_bytes;
use crate::http::{find_terminator, header_of, header_value, terminator_from};
use crate::onvif_responses::{
    audio_output_configurations, build_fault, build_get_audio_output_configurations, build_get_capabilities,
    build_get_device_information, build_get_endpoint_reference, build_get_profiles, build_get_services,
    build_get_snapshot_uri, build_get_stream_uri, build_get_system_date_and_time, build_set_synchronization_point,
    capabilities, device_information, endpoint_reference, fault, media_uri, profiles, services, stream_address,
    synchronization_point, system_date_and_time, told_format, OnvifConfig, OnvifView,
};
use crate::stream_state::{HubView, StreamState};
use crate::text::{
    chars_of, contains, contains_text, decimal, text_in, parse_unsigned, push_decimal, str_eq, string_of, trim,
    trimmed, unsigned_numeral, utf8_lossy, utf8_text,
};
use vstd::prelude::*;
use vstd::slice::slice_subrange;
use vstd::utf8::{decode_utf8, encode_utf8, valid_utf8};

verus! {

/// No request is larger than this.
pub const MAX_READ_BUFFER_BYTES: usize = 65536;

/// Length of the empty line that ends a header block, with the end of the line before it.
pub const HEADER_TERMINATOR_LEN: usize = 4;

/// Media type of SOAP 1.2.
pub const SOAP_CONTENT_TYPE: &'static str = "application/soap+xml; charset=utf-8";

/// HTTP status of every answer.
pub const STATUS_OK: u16 = 200;

/// An ONVIF service.
#[derive(Debug, Clone, Copy, PartialEq, Eq, Structural)]
pub enum Service {
    Device,
    Media,
}

/// An operation that a request asks for.
#[derive(Debug, Clone, Copy)]
pub struct Resolved {
    pub service: Service,
    pub op: &'static str,
}

/// What an operation stands for.
pub struct Operation {
    pub service: Service,
    pub op: Seq<char>,
}

impl View for Resolved {
    type V = Operation;

    open spec fn view(&self) -> Operation {
        Operation { service: self.service, op: self.op@ }
    }
}

/// An operation and the address that names it.
#[derive(Debug, Clone, Copy)]
pub struct KnownAction {
    pub uri: &'static str,
    pub resolved: Resolved,
}

/// How many operations there are.
pub const ACTION_COUNT: usize = 10;

/// The address that names an operation.
pub open spec fn action_uri(i: int) -> Seq<char> {
    if i == 0 {
        "http://www.onvif.org/ver10/device/wsdl/GetSystemDateAndTime"@
    } else if i == 1 {
        "http://www.onvif.org/ver10/device/wsdl/GetCapabilities"@
    } else if i == 2 {
        "http://www.onvif.org/ver10/device/wsdl/GetDeviceInformation"@
    } else if i == 3 {
        "http://www.onvif.org/ver10/device/wsdl/GetEndpointReference"@
    } else if i == 4 {
        "http://www.onvif.org/ver10/device/wsdl/GetServices"@
    } else if i == 5 {
        "http://www.onvif.org/ver10/device/wsdl/SetSynchronizationPoint"@
    } else if i == 6 {
        "http://www.onvif.org/ver10/media/wsdl/GetProfiles"@
    } else if i == 7 {
        "http://www.onvif.org/ver10/media/wsdl/GetStreamUri"@
    } else if i == 8 {
        "http://www.onvif.org/ver10/media/wsdl/GetSnapshotUri"@
    } else {
        "http://www.onvif.org/ver10/media/wsdl/GetAudioOutputConfigurations"@
    }
}

/// The name of an operation.
pub open spec fn action_name(i: int) -> Seq<char> {
    if i == 0 {
        "GetSystemDateAndTime"@
    } else if i == 1 {
        "GetCapabilities"@
    } else if i == 2 {
        "GetDeviceInformation"@
    } else if i == 3 {
        "GetEndpointReference"@
    } else if i == 4 {
        "GetServices"@
    } else if i == 5 {
        "SetSynchronizationPoint"@
    } else if i == 6 {
        "GetProfiles"@
    } else if i == 7 {
        "GetStreamUri"@
    } else if i == 8 {
        "GetSnapshotUri"@
    } else {
        "GetAudioOutputConfigurations"@
    }
}

/// An operation.
pub open spec fn operation(i: int) -> Operation {
    Operation {
        service: if i < 6 {
            Service::Device
        } else {
            Service::Media
        },
        op: action_name(i),
    }
}

fn device(uri: &'static str, op: &'static str) -> (r: KnownAction)
    ensures
        r.uri == uri,
        r.resolved.op == op,
        r.resolved.service is Device,
{
    KnownAction { uri, resolved: Resolved { service: Service::Device, op } }
}

fn media(uri: &'static str, op: &'static str) -> (r: KnownAction)
    ensures
        r.uri == uri,
        r.resolved.op == op,
        r.resolved.service is Media,
{
    KnownAction { uri, resolved: Resolved { service: Service::Media, op } }
}

/// The operations that can be asked for.
pub fn known_action(i: usize) -> (r: KnownAction)
    requires
        i < ACTION_COUNT,
    ensures
        r.uri@ == action_uri(i as int),
        r.resolved@ == operation(i as int),
{
    if i == 0 {
        device("http://www.onvif.org/ver10/device/wsdl/GetSystemDateAndTime", "GetSystemDateAndTime")
    } else if i == 1 {
        device("http://www.onvif.org/ver10/device/wsdl/GetCapabilities", "GetCapabilities")
    } else if i == 2 {
        device("http://www.onvif.org/ver10/device/wsdl/GetDeviceInformation", "GetDeviceInformation")
    } else if i == 3 {
        device("http://www.onvif.org/ver10/device/wsdl/GetEndpointReference", "GetEndpointReference")
    } else if i == 4 {
        device("http://www.onvif.org/ver10/device/wsdl/GetServices", "GetServices")
    } else if i == 5 {
        device("http://www.onvif.org/ver10/device/wsdl/SetSynchronizationPoint", "SetSynchronizationPoint")
    } else if i == 6 {
        media("http://www.onvif.org/ver10/media/wsdl/GetProfiles", "GetProfiles")
    } else if i == 7 {
        media("http://www.onvif.org/ver10/media/wsdl/GetStreamUri", "GetStreamUri")
    } else if i == 8 {
        media("http://www.onvif.org/ver10/media/wsdl/GetSnapshotUri", "GetSnapshotUri")
    } else {
        media(
            "http://www.onvif.org/ver10/media/wsdl/GetAudioOutputConfigurations",
            "GetAudioOutputConfigurations",
        )
    }
}

/// A text without a quotation mark at its front, and then without one at its end.
pub open spec fn unquoted(s: Seq<char>) -> Seq<char> {
    let front = if s.len() > 0 && s[0] == '"' {
        s.skip(1)
    } else {
        s
    };
    if front.len() > 0 && front.last() == '"' {
        front.drop_last()
    } else {
        front
    }
}

/// Removes one layer of quotation marks.
pub fn strip_quotes(value: &str) -> (r: String)
    ensures
        r@ == unquoted(value@),
{
    let chars = chars_of(value);
    let len: usize = chars.len();
    let from: usize = if len > 0 && chars[0] == '"' {
        1
    } else {
        0
    };
    let to: usize = if len > from && chars[len - 1] == '"' {
        len - 1
    } else {
        len
    };
    let r = string_of(chars.as_slice(), from, to);
    proof {
        let front = value@.skip(from as int);
        assert(value@.skip(0) =~= value@);
        if front.len() > 0 {
            assert(front.last() == value@.last());
        }
        assert(r@ =~= unquoted(value@));
    }
    r
}

/// The first operation from `i` on that a text is the name of.
pub open spec fn action_called(name: Seq<char>, i: int) -> Option<int>
    decreases ACTION_COUNT - i,
{
    if i < 0 || i >= ACTION_COUNT {
        None
    } else if name == action_uri(i) {
        Some(i)
    } else {
        action_called(name, i + 1)
    }
}

/// The first operation from `i` on that a body names.
pub open spec fn action_within(body: Seq<char>, i: int) -> Option<int>
    decreases ACTION_COUNT - i,
{
    if i < 0 || i >= ACTION_COUNT {
        None
    } else if contains_text(body, action_uri(i)) {
        Some(i)
    } else {
        action_within(body, i + 1)
    }
}

/// The operation that a request asks for: the one that its header names, or else the first that its
/// body names.
pub open spec fn asked_for(soap_action: Seq<char>, body: Seq<char>) -> Option<int> {
    match action_called(unquoted(trimmed(soap_action)), 0) {
        Some(i) => Some(i),
        None => action_within(body, 0),
    }
}

/// Which operation a request asks for.
pub fn resolve_action(soap_action: &str, body: &str) -> (r: Option<Resolved>)
    ensures
        match asked_for(soap_action@, body@) {
            Some(i) => r matches Some(op) && op@ == operation(i),
            None => r is None,
        },
{
    let action_chars = chars_of(soap_action);
    let inner = trim(action_chars.as_slice());
    let inner_len: usize = inner.len();
    let bare = string_of(inner, 0, inner_len);
    assert(bare@ =~= trimmed(soap_action@));
    let stripped = strip_quotes(bare.as_str());
    let mut i: usize = 0;
    while i < ACTION_COUNT
        invariant
            i <= ACTION_COUNT,
            stripped@ == unquoted(trimmed(soap_action@)),
            action_called(stripped@, 0) == action_called(stripped@, i as int),
        decreases ACTION_COUNT - i,
    {
        let known = known_action(i);
        if str_eq(stripped.as_str(), known.uri) {
            return Some(known.resolved);
        }
        i += 1;
    }
    let mut k: usize = 0;
    while k < ACTION_COUNT
        invariant
            k <= ACTION_COUNT,
            action_called(unquoted(trimmed(soap_action@)), 0) is None,
            action_within(body@, 0) == action_within(body@, k as int),
        decreases ACTION_COUNT - k,
    {
        let known = known_action(k);
        if contains(body, known.uri) {
            return Some(known.resolved);
        }
        k += 1;
    }
    None
}

/// The answer to an operation.
pub open spec fn answer(asked: Option<int>, c: OnvifView, hub: HubView, now_secs: int) -> Seq<char> {
    match asked {
        None => fault(),
        Some(i) => if i == 0 {
            system_date_and_time(now_secs)
        } else if i == 1 {
            capabilities(c)
        } else if i == 2 {
            device_information(c, hub.camera_identity)
        } else if i == 3 {
            endpoint_reference()
        } else if i == 4 {
            services(c)
        } else if i == 5 {
            synchronization_point()
        } else if i == 6 {
            let format = told_format(hub);
            profiles(format.0, format.1, format.2)
        } else if i == 7 {
            media_uri("trt:GetStreamUriResponse"@, stream_address(c))
        } else if i == 8 {
            media_uri("trt:GetSnapshotUriResponse"@, stream_address(c))
        } else {
            audio_output_configurations()
        },
    }
}

/// No two operations have the same name.
proof fn lemma_names_differ()
    ensures
        forall|i: int, k: int|
            0 <= i < k < ACTION_COUNT ==> #[trigger] action_name(i) != #[trigger] action_name(k),
{
    reveal_strlit("GetSystemDateAndTime");
    reveal_strlit("GetCapabilities");
    reveal_strlit("GetDeviceInformation");
    reveal_strlit("GetEndpointReference");
    reveal_strlit("GetServices");
    reveal_strlit("SetSynchronizationPoint");
    reveal_strlit("GetProfiles");
    reveal_strlit("GetStreamUri");
    reveal_strlit("GetSnapshotUri");
    reveal_strlit("GetAudioOutputConfigurations");
    assert forall|i: int, k: int| 0 <= i < k < ACTION_COUNT implies #[trigger] action_name(i) != #[trigger] action_name(
        k,
    ) by {
        if action_name(i).len() == action_name(k).len() {
            assert(action_name(i)[3] != action_name(k)[3]);
        }
    }
}

/// Answers a request. The status is 200 in any case; what is not known gets a fault.
pub fn route(soap_action: &str, body: &str, cfg: &OnvifConfig, state: &StreamState, now_secs: i64) -> (r: (u16, String))
    requires
        now_secs >= 0,
    ensures
        r.0 == STATUS_OK,
        r.1@ == answer(asked_for(soap_action@, body@), cfg@, state@, now_secs as int),
{
    let resolved = match resolve_action(soap_action, body) {
        Some(op) => op,
        None => return (STATUS_OK, build_fault()),
    };
    let ghost i = asked_for(soap_action@, body@)->0;
    let op = resolved.op;
    proof {
        lemma_names_differ();
        lemma_asked_for_is_known(soap_action@, body@);
        assert(op@ == action_name(i));
        assert forall|k: int| 0 <= k < ACTION_COUNT && k != i implies op@ != #[trigger] action_name(k) by {}
        assert(action_name(0) == "GetSystemDateAndTime"@);
        assert(action_name(1) == "GetCapabilities"@);
        assert(action_name(2) == "GetDeviceInformation"@);
        assert(action_name(3) == "GetEndpointReference"@);
        assert(action_name(4) == "GetServices"@);
        assert(action_name(5) == "SetSynchronizationPoint"@);
        assert(action_name(6) == "GetProfiles"@);
        assert(action_name(7) == "GetStreamUri"@);
        assert(action_name(8) == "GetSnapshotUri"@);
    }
    let xml = if str_eq(op, "GetSystemDateAndTime") {
        build_get_system_date_and_time(now_secs)
    } else if str_eq(op, "GetCapabilities") {
        build_get_capabilities(cfg)
    } else if str_eq(op, "GetDeviceInformation") {
        build_get_device_information(cfg, state)
    } else if str_eq(op, "GetEndpointReference") {
        build_get_endpoint_reference()
    } else if str_eq(op, "GetServices") {
        build_get_services(cfg)
    } else if str_eq(op, "SetSynchronizationPoint") {
        build_set_synchronization_point()
    } else if str_eq(op, "GetProfiles") {
        build_get_profiles(cfg, state)
    } else if str_eq(op, "GetStreamUri") {
        build_get_stream_uri(cfg)
    } else if str_eq(op, "GetSnapshotUri") {
        build_get_snapshot_uri(cfg)
    } else {
        build_get_audio_output_configurations()
    };
    (STATUS_OK, xml)
}

/// What a search from `i` on finds.
proof fn lemma_action_called(name: Seq<char>, i: int)
    requires
        0 <= i,
    ensures
        action_called(name, i) matches Some(k) ==> i <= k < ACTION_COUNT && name == action_uri(k),
    decreases ACTION_COUNT - i,
{
    if i < ACTION_COUNT && name != action_uri(i) {
        lemma_action_called(name, i + 1);
    }
}

/// What a search from `i` on finds.
proof fn lemma_action_within(body: Seq<char>, i: int)
    requires
        0 <= i,
    ensures
        action_within(body, i) matches Some(k) ==> i <= k < ACTION_COUNT && contains_text(body, action_uri(k)),
    decreases ACTION_COUNT - i,
{
    if i < ACTION_COUNT && !contains_text(body, action_uri(i)) {
        lemma_action_within(body, i + 1);
    }
}

/// What is asked for is one of the operations.
proof fn lemma_asked_for_is_known(soap_action: Seq<char>, body: Seq<char>)
    ensures
        asked_for(soap_action, body) matches Some(k) ==> 0 <= k < ACTION_COUNT,
{
    lemma_action_called(unquoted(trimmed(soap_action)), 0);
    lemma_action_within(body, 0);
}

/// HTTP reason phrase.
pub fn http_reason(_code: u16) -> (r: &'static str)
    ensures
        r@ == "OK"@,
{
    "OK"
}

/// The head of an HTTP answer.
pub open spec fn response_head(status: u16, body_len: nat) -> Seq<char> {
    "HTTP/1.1 "@ + decimal(status as nat) + " "@ + "OK"@ + "\r\nContent-Type: "@ + SOAP_CONTENT_TYPE@
        + "\r\nContent-Length: "@ + decimal(body_len) + "\r\nConnection: close\r\n\r\n"@
}

/// An HTTP answer.
pub open spec fn http_response(status: u16, xml: Seq<char>) -> Seq<u8> {
    encode_utf8(response_head(status, encode_utf8(xml).len())) + encode_utf8(xml)
}

/// Writes an HTTP answer.
pub fn build_http_response(status: u16, xml: &str) -> (r: Vec<u8>)
    ensures
        r@ == http_response(status, xml@),
{
    let body = xml.as_bytes();
    let body_len: usize = body.len();
    let mut head = "HTTP/1.1 ".to_owned();
    push_decimal(&mut head, status as u64);
    head.append(" ");
    head.append(http_reason(status));
    head.append("\r\nContent-Type: ");
    head.append(SOAP_CONTENT_TYPE);
    head.append("\r\nContent-Length: ");
    push_decimal(&mut head, body_len as u64);
    head.append("\r\nConnection: close\r\n\r\n");
    let mut out: Vec<u8> = Vec::new();
    append_bytes(&mut out, head.as_str().as_bytes());
    append_bytes(&mut out, body);
    assert(out@ =~= http_response(status, xml@));
    out
}

/// The length of the body that a header block announces; 0 where it announces none.
pub open spec fn announced_length(headers: Seq<char>) -> nat {
    match header_of(headers, "content-length"@) {
        Some(v) => match unsigned_numeral(v, usize::MAX as nat) {
            Some(n) => n,
            None => 0,
        },
        None => 0,
    }
}

/// Reads the length of the body that a header block announces.
pub fn parse_content_length(headers: &str) -> (r: usize)
    ensures
        r == announced_length(headers@),
{
    match header_value(headers, "content-length") {
        Some(v) => {
            let chars = chars_of(v.as_str());
            match parse_unsigned(chars.as_slice(), usize::MAX as u64) {
                Some(n) => n as usize,
                None => 0,
            }
        },
        None => 0,
    }
}

/// The operation that a header block names; empty where it names none.
pub open spec fn named_action(headers: Seq<char>) -> Seq<char> {
    match header_of(headers, "soapaction"@) {
        Some(v) => v,
        None => Seq::empty(),
    }
}

/// Reads the operation that a header block names.
pub fn parse_soap_action(headers: &str) -> (r: String)
    ensures
        r@ == named_action(headers@),
{
    match header_value(headers, "soapaction") {
        Some(v) => v,
        None => {
            let none = String::new();
            assert(none@ =~= Seq::empty());
            none
        },
    }
}

/// What has arrived of a request.
pub enum Arrived {
    /// Not all of it.
    Part,
    /// More than a request may have.
    TooMuch,
    /// A header block that is no text.
    BadHeaders,
    /// All of it: the operation that the header block names, and the body's bytes.
    All(Seq<char>, Seq<u8>),
}

/// What has arrived of a request, when the bytes are `buf`.
pub open spec fn arrived(buf: Seq<u8>) -> Arrived {
    if buf.len() > MAX_READ_BUFFER_BYTES {
        Arrived::TooMuch
    } else {
        match terminator_from(buf, 0) {
            None => Arrived::Part,
            Some(end) => if !valid_utf8(buf.take(end)) {
                Arrived::BadHeaders
            } else {
                let headers = decode_utf8(buf.take(end));
                let start = end + HEADER_TERMINATOR_LEN;
                let length = announced_length(headers) as int;
                if buf.len() < start + length {
                    Arrived::Part
                } else {
                    Arrived::All(named_action(headers), buf.subrange(start, start + length))
                }
            },
        }
    }
}

/// What to do on a connection next.
#[derive(Debug, Clone, PartialEq, Eq)]
pub enum ConnectionStep {
    /// Read on.
    Read,
    /// Close it without an answer.
    Close,
    /// Close it without an answer, and say that the headers were no text.
    CloseBadHeaders,
    /// Send this, and close it.
    Reply(Vec<u8>),
}

/// One request's connection: the bytes that have arrived.
pub struct OnvifConnection {
    buf: Vec<u8>,
}

impl View for OnvifConnection {
    type V = Seq<u8>;

    closed spec fn view(&self) -> Seq<u8> {
        self.buf@
    }
}

impl OnvifConnection {
    /// A connection on which nothing has arrived.
    pub fn new() -> (r: OnvifConnection)
        ensures
            r@ == Seq::<u8>::empty(),
    {
        OnvifConnection { buf: Vec::new() }
    }

    /// Whether the headers have arrived, so that only the body is waited for.
    pub fn has_headers(&self) -> (r: bool)
        ensures
            r == terminator_from(self@, 0) is Some,
    {
        find_terminator(self.buf.as_slice()).is_some()
    }

    /// Takes what has been read, and decides.
    pub fn on_bytes(
        &mut self,
        chunk: &[u8],
        cfg: &OnvifConfig,
        state: &StreamState,
        now_secs: i64,
    ) -> (r: ConnectionStep)
        requires
            now_secs >= 0,
        ensures
            final(self)@ == old(self)@ + chunk@,
            match arrived(old(self)@ + chunk@) {
                Arrived::Part => r is Read && final(self)@.len() <= MAX_READ_BUFFER_BYTES,
                Arrived::TooMuch => r is Close,
                Arrived::BadHeaders => r is CloseBadHeaders,
                Arrived::All(action, body) => r matches ConnectionStep::Reply(bytes) && bytes@ == http_response(
                    STATUS_OK,
                    answer(asked_for(action, text_in(body)), cfg@, state@, now_secs as int),
                ),
            },
    {
        append_bytes(&mut self.buf, chunk);
        assert(self.buf@ =~= old(self)@ + chunk@);
        let len: usize = self.buf.len();
        if len > MAX_READ_BUFFER_BYTES {
            return ConnectionStep::Close;
        }
        let buf = self.buf.as_slice();
        let end: usize = match find_terminator(buf) {
            Some(i) => i,
            None => return ConnectionStep::Read,
        };
        let head = slice_subrange(buf, 0, end);
        assert(head@ =~= buf@.take(end as int));
        let headers = match utf8_text(head) {
            Some(text) => text,
            None => return ConnectionStep::CloseBadHeaders,
        };
        let length: usize = parse_content_length(headers);
        let soap_action = parse_soap_action(headers);
        let start: usize = end + HEADER_TERMINATOR_LEN;
        if len - start < length {
            return ConnectionStep::Read;
        }
        let body = utf8_lossy(slice_subrange(buf, start, start + length));
        let (status, xml) = route(soap_action.as_str(), body.as_str(), cfg, state, now_secs);
        ConnectionStep::Reply(build_http_response(status, xml.as_str()))
    }
}

/// A header that names an operation decides, whatever the body says.
pub proof fn law_header_decides(soap_action: Seq<char>, body: Seq<char>, other_body: Seq<char>)
    requires
        exists|i: int|
            0 <= i < ACTION_COUNT && unquoted(trimmed(soap_action)) == #[trigger] action_uri(i),
    ensures
        asked_for(soap_action, body) == asked_for(soap_action, other_body),
        asked_for(soap_action, body) matches Some(k) && unquoted(trimmed(soap_action)) == action_uri(k),
{
    let name = unquoted(trimmed(soap_action));
    let i = choose|i: int| 0 <= i < ACTION_COUNT && name == #[trigger] action_uri(i);
    lemma_action_is_found(name, 0, i);
    lemma_action_called(name, 0);
}

/// A search finds what is there.
proof fn lemma_action_is_found(name: Seq<char>, from: int, i: int)
    requires
        0 <= from <= i < ACTION_COUNT,
        name == action_uri(i),
    ensures
        action_called(name, from) is Some,
    decreases i - from,
{
    if name != action_uri(from) {
        lemma_action_is_found(name, from + 1, i);
    }
}

/// No two operations have the same address.
proof fn lemma_uris_differ()
    ensures
        forall|i: int, k: int|
            0 <= i < k < ACTION_COUNT ==> #[trigger] action_uri(i) != #[trigger] action_uri(k),
{
    reveal_strlit("http://www.onvif.org/ver10/device/wsdl/GetSystemDateAndTime");
    reveal_strlit("http://www.onvif.org/ver10/device/wsdl/GetCapabilities");
    reveal_strlit("http://www.onvif.org/ver10/device/wsdl/GetDeviceInformation");
    reveal_strlit("http://www.onvif.org/ver10/device/wsdl/GetEndpointReference");
    reveal_strlit("http://www.onvif.org/ver10/device/wsdl/GetServices");
    reveal_strlit("http://www.onvif.org/ver10/device/wsdl/SetSynchronizationPoint");
    reveal_strlit("http://www.onvif.org/ver10/media/wsdl/GetProfiles");
    reveal_strlit("http://www.onvif.org/ver10/media/wsdl/GetStreamUri");
    reveal_strlit("http://www.onvif.org/ver10/media/wsdl/GetSnapshotUri");
    reveal_strlit("http://www.onvif.org/ver10/media/wsdl/GetAudioOutputConfigurations");
    assert forall|i: int, k: int| 0 <= i < k < ACTION_COUNT implies #[trigger] action_uri(i) != #[trigger] action_uri(
        k,
    ) by {
        if action_uri(i).len() == action_uri(k).len() {
            assert(action_uri(i)[42] != action_uri(k)[42]);
        }
    }
}

/// Every operation can be asked for by its address, in quotation marks as SOAP wants it.
pub proof fn law_every_operation_can_be_asked_for(i: int, body: Seq<char>)
    requires
        0 <= i < ACTION_COUNT,
    ensures
        asked_for("\""@ + action_uri(i) + "\""@, body) == Some(i),
{
    reveal_strlit("\"");
    let quoted = "\""@ + action_uri(i) + "\""@;
    assert(quoted[0] == '"' && quoted.last() == '"');
    assert(trimmed(quoted) == quoted);
    assert(quoted.skip(1).last() == '"');
    assert(unquoted(quoted) =~= action_uri(i));
    lemma_uris_differ();
    lemma_action_is_found(action_uri(i), 0, i);
    lemma_action_called(action_uri(i), 0);
}

/// A request that names no operation, neither in its header nor in its body, gets a fault.
pub proof fn law_unknown_actions_are_refused(
    soap_action: Seq<char>,
    body: Seq<char>,
    c: OnvifView,
    hub: HubView,
    now_secs: int,
)
    requires
        forall|i: int| 0 <= i < ACTION_COUNT ==> unquoted(trimmed(soap_action)) != #[trigger] action_uri(i),
        forall|i: int| 0 <= i < ACTION_COUNT ==> !contains_text(body, #[trigger] action_uri(i)),
    ensures
        answer(asked_for(soap_action, body), c, hub, now_secs) == fault(),
{
    lemma_action_called(unquoted(trimmed(soap_action)), 0);
    lemma_action_within(body, 0);
}

} // verus!
