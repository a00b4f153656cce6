//! RTSP 1.0: requests, answers, and the sessions of one connection.

use crate::bytes::append_bytes;
use crate::http::{find_terminator, header_of, header_value, terminator_from};
use crate::sdp::{build_sdp, sdp_text};
use crate::stream_state::{CodecParams, CodecView};
use crate::text::{
    chars_eq, chars_of, decimal, padded, parse_unsigned, pieces, position, find_char, push_decimal, push_padded, split,
    str_eq, string_of, text_views, trim, trimmed, unsigned_numeral, utf8_text,
};
use vstd::prelude::*;
use vstd::slice::slice_subrange;
use vstd::utf8::{decode_utf8, encode_utf8, valid_utf8};

verus! {

pub const STATUS_OK: u16 = 200;

pub const STATUS_BAD_REQUEST: u16 = 400;

pub const STATUS_SESSION_NOT_FOUND: u16 = 454;

pub const STATUS_UNSUPPORTED_TRANSPORT: u16 = 461;

pub const STATUS_NOT_IMPLEMENTED: u16 = 501;

pub const STATUS_SERVICE_UNAVAILABLE: u16 = 503;

/// How long a session without a playing stream lives on silence.
pub const SESSION_TIMEOUT_SECS: u32 = 60;

/// What a request wants.
#[derive(Debug, Clone, Copy, PartialEq, Eq, Structural)]
pub enum Method {
    Options,
    Describe,
    Setup,
    Play,
    Teardown,
    GetParameter,
    Unknown,
}

/// The method of a name.
pub open spec fn method_named(name: Seq<char>) -> Method {
    if name == "OPTIONS"@ {
        Method::Options
    } else if name == "DESCRIBE"@ {
        Method::Describe
    } else if name == "SETUP"@ {
        Method::Setup
    } else if name == "PLAY"@ {
        Method::Play
    } else if name == "TEARDOWN"@ {
        Method::Teardown
    } else if name == "GET_PARAMETER"@ {
        Method::GetParameter
    } else {
        Method::Unknown
    }
}

fn method_of(name: &str) -> (r: Method)
    ensures
        r == method_named(name@),
{
    if str_eq(name, "OPTIONS") {
        Method::Options
    } else if str_eq(name, "DESCRIBE") {
        Method::Describe
    } else if str_eq(name, "SETUP") {
        Method::Setup
    } else if str_eq(name, "PLAY") {
        Method::Play
    } else if str_eq(name, "TEARDOWN") {
        Method::Teardown
    } else if str_eq(name, "GET_PARAMETER") {
        Method::GetParameter
    } else {
        Method::Unknown
    }
}

/// A request.
#[derive(Debug, Clone, PartialEq, Eq)]
pub struct RtspRequest {
    pub method: Method,
    pub uri: String,
    pub cseq: Option<u32>,
    /// The session's id.
    pub session: Option<String>,
    /// The transports that are offered.
    pub transport: Option<String>,
}

/// What a request stands for.
#[verifier::ext_equal]
pub struct RequestView {
    pub method: Method,
    pub uri: Seq<char>,
    pub cseq: Option<u32>,
    pub session: Option<Seq<char>>,
    pub transport: Option<Seq<char>>,
}

/// What an optional text stands for.
pub open spec fn text_of(t: Option<String>) -> Option<Seq<char>> {
    match t {
        Some(s) => Some(s@),
        None => None,
    }
}

impl View for RtspRequest {
    type V = RequestView;

    open spec fn view(&self) -> RequestView {
        RequestView {
            method: self.method,
            uri: self.uri@,
            cseq: self.cseq,
            session: text_of(self.session),
            transport: text_of(self.transport),
        }
    }
}

/// Why bytes are no request.
#[derive(Debug, Clone, PartialEq, Eq)]
pub enum RtspError {
    /// They are one of another protocol, whose version this is.
    NonRtspVersion(String),
    Malformed,
}

/// What bytes are, as a request.
pub enum Parsed {
    /// Not all of one.
    Part,
    /// One of another protocol.
    Foreign(Seq<char>),
    Malformed,
    /// One, of this many bytes.
    Request(RequestView, int),
}

/// The id in a `Session` field: what stands before its parameters.
pub open spec fn id_in(value: Seq<char>) -> Seq<char> {
    match position(value, ';') {
        Some(i) => trimmed(value.take(i)),
        None => trimmed(value),
    }
}

/// The number of the request.
pub open spec fn cseq_in(headers: Seq<char>) -> Option<u32> {
    match header_of(headers, "cseq"@) {
        Some(v) => match unsigned_numeral(v, u32::MAX as nat) {
            Some(n) => Some(n as u32),
            None => None,
        },
        None => None,
    }
}

/// The length of the request's body.
pub open spec fn body_length_in(headers: Seq<char>) -> nat {
    match header_of(headers, "content-length"@) {
        Some(v) => match unsigned_numeral(v, usize::MAX as nat) {
            Some(n) => n,
            None => 0,
        },
        None => 0,
    }
}

/// The words of the request's first line.
pub open spec fn first_line_words(headers: Seq<char>) -> Seq<Seq<char>> {
    pieces(pieces(headers, seq!['\r', '\n'])[0], seq![' '])
}

/// Whether a text begins with another.
pub open spec fn begins_with(s: Seq<char>, front: Seq<char>) -> bool {
    s.len() >= front.len() && s.take(front.len() as int) == front
}

/// The request that a header block is.
pub open spec fn request_of(headers: Seq<char>) -> RequestView {
    let words = first_line_words(headers);
    RequestView {
        method: method_named(words[0]),
        uri: words[1],
        cseq: cseq_in(headers),
        session: match header_of(headers, "session"@) {
            Some(v) => Some(id_in(v)),
            None => None,
        },
        transport: header_of(headers, "transport"@),
    }
}

/// What bytes are, as a request.
pub open spec fn parsed(buf: Seq<u8>) -> Parsed {
    match terminator_from(buf, 0) {
        None => Parsed::Part,
        Some(end) => if !valid_utf8(buf.take(end)) {
            Parsed::Malformed
        } else {
            let headers = decode_utf8(buf.take(end));
            let words = first_line_words(headers);
            if words.len() != 3 {
                Parsed::Malformed
            } else if !begins_with(words[2], "RTSP/"@) {
                Parsed::Foreign(words[2])
            } else if buf.len() < end + 4 + body_length_in(headers) {
                Parsed::Part
            } else {
                Parsed::Request(request_of(headers), end + 4 + body_length_in(headers))
            }
        },
    }
}

/// The text of a run of characters.
fn owned(v: &[char]) -> (r: String)
    ensures
        r@ == v@,
{
    let count: usize = v.len();
    let r = string_of(v, 0, count);
    assert(r@ =~= v@);
    r
}

/// The id in a `Session` field.
pub fn session_id(value: &str) -> (r: String)
    ensures
        r@ == id_in(value@),
{
    let chars = chars_of(value);
    let end: usize = match find_char(chars.as_slice(), ';') {
        Some(i) => i,
        None => chars.len(),
    };
    let front = slice_subrange(chars.as_slice(), 0, end);
    assert(front@ =~= value@.take(end as int));
    assert(value@.take(value@.len() as int) =~= value@);
    owned(trim(front))
}

fn read_cseq(headers: &str) -> (r: Option<u32>)
    ensures
        r == cseq_in(headers@),
{
    match header_value(headers, "cseq") {
        Some(v) => {
            let chars = chars_of(v.as_str());
            match parse_unsigned(chars.as_slice(), u32::MAX as u64) {
                Some(n) => Some(n as u32),
                None => None,
            }
        },
        None => None,
    }
}

fn read_body_length(headers: &str) -> (r: usize)
    ensures
        r == body_length_in(headers@),
{
    match header_value(headers, "content-length") {
        Some(v) => {
            let chars = chars_of(v.as_str());
            match parse_unsigned(chars.as_slice(), usize::MAX as u64) {
                Some(n) => n as usize,
                None => 0,
            }
        },
        None => 0,
    }
}

fn starts_with(v: &[char], front: &[char]) -> (r: bool)
    ensures
        r == begins_with(v@, front@),
{
    let len: usize = front.len();
    if v.len() < len {
        return false;
    }
    let head = slice_subrange(v, 0, len);
    assert(head@ =~= v@.take(len as int));
    chars_eq(head, front)
}

/// There is always a first piece.
proof fn lemma_first_piece(s: Seq<char>, sep: Seq<char>)
    ensures
        pieces(s, sep).len() >= 1,
{
}

fn read_words(headers: &str) -> (r: Vec<Vec<char>>)
    ensures
        text_views(r@) == first_line_words(headers@),
{
    let chars = chars_of(headers);
    let line_end: [char; 2] = ['\r', '\n'];
    let space: [char; 1] = [' '];
    assert(line_end@ =~= seq!['\r', '\n']);
    assert(space@ =~= seq![' ']);
    let lines = split(chars.as_slice(), line_end.as_slice());
    proof {
        lemma_first_piece(headers@, seq!['\r', '\n']);
        assert(text_views(lines@).len() >= 1);
        assert(text_views(lines@)[0] == lines@[0]@);
    }
    split(lines[0].as_slice(), space.as_slice())
}

/// Reads a request, and how many bytes it takes.
pub fn parse_request(buf: &[u8]) -> (r: Result<Option<(RtspRequest, usize)>, RtspError>)
    ensures
        match parsed(buf@) {
            Parsed::Part => r matches Ok(None),
            Parsed::Foreign(version) => r matches Err(RtspError::NonRtspVersion(v)) && v@ == version,
            Parsed::Malformed => r matches Err(RtspError::Malformed),
            Parsed::Request(req, len) => r matches Ok(Some((q, n))) && q@ == req && n == len && 0 < n <= buf@.len(),
        },
{
    let total: usize = buf.len();
    let end: usize = match find_terminator(buf) {
        Some(i) => i,
        None => return Ok(None),
    };
    let head = slice_subrange(buf, 0, end);
    assert(head@ =~= buf@.take(end as int));
    let headers = match utf8_text(head) {
        Some(text) => text,
        None => return Err(RtspError::Malformed),
    };
    let words = read_words(headers);
    assert(text_views(words@).len() == words@.len());
    if words.len() != 3 {
        return Err(RtspError::Malformed);
    }
    assert(text_views(words@)[0] == words@[0]@);
    assert(text_views(words@)[1] == words@[1]@);
    assert(text_views(words@)[2] == words@[2]@);
    let rtsp = chars_of("RTSP/");
    if !starts_with(words[2].as_slice(), rtsp.as_slice()) {
        return Err(RtspError::NonRtspVersion(owned(words[2].as_slice())));
    }
    let length: usize = read_body_length(headers);
    let start: usize = end + 4;
    if total - start < length {
        return Ok(None);
    }
    let name = owned(words[0].as_slice());
    let session = match header_value(headers, "session") {
        Some(v) => Some(session_id(v.as_str())),
        None => None,
    };
    let req = RtspRequest {
        method: method_of(name.as_str()),
        uri: owned(words[1].as_slice()),
        cseq: read_cseq(headers),
        session,
        transport: header_value(headers, "transport"),
    };
    assert(req@ =~= request_of(headers@));
    Ok(Some((req, start + length)))
}

/// How a stream is sent.
#[derive(Debug, Clone, Copy, PartialEq, Eq, Structural)]
pub enum Transport {
    /// On the RTSP connection, under these channels.
    Interleaved { rtp_ch: u8, rtcp_ch: u8 },
    /// In datagrams, between these ports.
    Udp { client_rtp: u16, client_rtcp: u16, server_rtp: u16, server_rtcp: u16 },
}

/// The two numbers of a range; the second follows the first where only one is given.
pub open spec fn number_pair(s: Seq<char>, max: nat) -> Option<(nat, nat)> {
    let parts = pieces(s, seq!['-']);
    match unsigned_numeral(parts[0], max) {
        None => None,
        Some(a) => if parts.len() == 1 {
            if a < max {
                Some((a, a + 1))
            } else {
                None
            }
        } else if parts.len() == 2 {
            match unsigned_numeral(parts[1], max) {
                Some(b) => Some((a, b)),
                None => None,
            }
        } else {
            None
        },
    }
}

fn read_pair(v: &[char], max: u64) -> (r: Option<(u64, u64)>)
    ensures
        match number_pair(v@, max as nat) {
            Some(p) => r matches Some(q) && q.0 == p.0 && q.1 == p.1 && q.0 <= max && q.1 <= max,
            None => r is None,
        },
{
    let dash: [char; 1] = ['-'];
    assert(dash@ =~= seq!['-']);
    let parts = split(v, dash.as_slice());
    let ghost views = text_views(parts@);
    proof {
        lemma_first_piece(v@, seq!['-']);
        assert(views.len() == parts@.len());
        assert(views[0] == parts@[0]@);
    }
    let a: u64 = match parse_unsigned(parts[0].as_slice(), max) {
        Some(n) => n,
        None => return None,
    };
    if parts.len() == 1 {
        if a < max {
            Some((a, a + 1))
        } else {
            None
        }
    } else if parts.len() == 2 {
        assert(views[1] == parts@[1]@);
        match parse_unsigned(parts[1].as_slice(), max) {
            Some(b) => Some((a, b)),
            None => None,
        }
    } else {
        None
    }
}

/// The value of the first parameter from `i` on that is called `name`, with its `=`.
pub open spec fn parameter(parts: Seq<Seq<char>>, name: Seq<char>, i: int) -> Option<Seq<char>>
    decreases parts.len() - i,
{
    if i < 0 || i >= parts.len() {
        None
    } else if begins_with(trimmed(parts[i]), name) {
        Some(trimmed(parts[i]).skip(name.len() as int))
    } else {
        parameter(parts, name, i + 1)
    }
}

fn find_parameter(parts: &Vec<Vec<char>>, name: &str) -> (r: Option<Vec<char>>)
    ensures
        match parameter(text_views(parts@), name@, 1) {
            Some(v) => r matches Some(t) && t@ == v,
            None => r is None,
        },
{
    let wanted = chars_of(name);
    let ghost views = text_views(parts@);
    let mut i: usize = 1;
    while i < parts.len()
        invariant
            1 <= i,
            wanted@ == name@,
            views == text_views(parts@),
            parameter(views, name@, 1) == parameter(views, name@, i as int),
        decreases parts@.len() - i,
    {
        assert(views[i as int] == parts@[i as int]@);
        let part = trim(parts[i].as_slice());
        if starts_with(part, wanted.as_slice()) {
            let from: usize = wanted.len();
            let to: usize = part.len();
            let value = slice_subrange(part, from, to);
            assert(value@ =~= part@.skip(from as int));
            return Some(vstd::slice::slice_to_vec(value));
        }
        i += 1;
    }
    None
}

/// The transport that one offer makes, where it is one that can be had.
pub open spec fn accepted(offer: Seq<char>, server_rtp: u16) -> Option<Transport> {
    let parts = pieces(offer, seq![';']);
    let protocol = trimmed(parts[0]);
    if protocol == "RTP/AVP/TCP"@ {
        match parameter(parts, "interleaved="@, 1) {
            None => Some(Transport::Interleaved { rtp_ch: 0, rtcp_ch: 1 }),
            Some(v) => match number_pair(v, 255) {
                Some((a, b)) => Some(Transport::Interleaved { rtp_ch: a as u8, rtcp_ch: b as u8 }),
                None => None,
            },
        }
    } else if protocol == "RTP/AVP"@ || protocol == "RTP/AVP/UDP"@ {
        match parameter(parts, "client_port="@, 1) {
            None => None,
            Some(v) => match number_pair(v, 65535) {
                Some((a, b)) => Some(
                    Transport::Udp {
                        client_rtp: a as u16,
                        client_rtcp: b as u16,
                        server_rtp,
                        server_rtcp: (server_rtp + 1) as u16,
                    },
                ),
                None => None,
            },
        }
    } else {
        None
    }
}

fn accept_offer(offer: &[char], server_rtp: u16) -> (r: Option<Transport>)
    requires
        server_rtp < u16::MAX,
    ensures
        r == accepted(offer@, server_rtp),
{
    let sep: [char; 1] = [';'];
    assert(sep@ =~= seq![';']);
    let parts = split(offer, sep.as_slice());
    proof {
        lemma_first_piece(offer@, seq![';']);
        assert(text_views(parts@).len() == parts@.len());
        assert(text_views(parts@)[0] == parts@[0]@);
    }
    let protocol = owned(trim(parts[0].as_slice()));
    if str_eq(protocol.as_str(), "RTP/AVP/TCP") {
        match find_parameter(&parts, "interleaved=") {
            None => Some(Transport::Interleaved { rtp_ch: 0, rtcp_ch: 1 }),
            Some(v) => match read_pair(v.as_slice(), 255) {
                Some((a, b)) => Some(Transport::Interleaved { rtp_ch: a as u8, rtcp_ch: b as u8 }),
                None => None,
            },
        }
    } else if str_eq(protocol.as_str(), "RTP/AVP") || str_eq(protocol.as_str(), "RTP/AVP/UDP") {
        match find_parameter(&parts, "client_port=") {
            None => None,
            Some(v) => match read_pair(v.as_slice(), 65535) {
                Some((a, b)) => Some(
                    Transport::Udp {
                        client_rtp: a as u16,
                        client_rtcp: b as u16,
                        server_rtp,
                        server_rtcp: server_rtp + 1,
                    },
                ),
                None => None,
            },
        }
    } else {
        None
    }
}

/// The first offer from `i` on that can be had.
pub open spec fn first_accepted(offers: Seq<Seq<char>>, server_rtp: u16, i: int) -> Option<Transport>
    decreases offers.len() - i,
{
    if i < 0 || i >= offers.len() {
        None
    } else {
        match accepted(offers[i], server_rtp) {
            Some(t) => Some(t),
            None => first_accepted(offers, server_rtp, i + 1),
        }
    }
}

/// The transport that a `Transport` field asks for.
pub open spec fn chosen(offers: Option<Seq<char>>, server_rtp: u16) -> Option<Transport> {
    match offers {
        None => None,
        Some(t) => first_accepted(pieces(t, seq![',']), server_rtp, 0),
    }
}

fn choose_transport(offers: &Option<String>, server_rtp: u16) -> (r: Option<Transport>)
    requires
        server_rtp < u16::MAX,
    ensures
        r == chosen(text_of(*offers), server_rtp),
{
    let text = match offers {
        Some(t) => t,
        None => return None,
    };
    let chars = chars_of(text.as_str());
    let comma: [char; 1] = [','];
    assert(comma@ =~= seq![',']);
    let parts = split(chars.as_slice(), comma.as_slice());
    let ghost views = text_views(parts@);
    let mut i: usize = 0;
    while i < parts.len()
        invariant
            views == text_views(parts@),
            server_rtp < u16::MAX,
            chosen(text_of(*offers), server_rtp) == first_accepted(views, server_rtp, 0),
            first_accepted(views, server_rtp, 0) == first_accepted(views, server_rtp, i as int),
        decreases parts@.len() - i,
    {
        assert(views[i as int] == parts@[i as int]@);
        let t = accept_offer(parts[i].as_slice(), server_rtp);
        if t.is_some() {
            return t;
        }
        i += 1;
    }
    None
}

/// A field of an answer.
pub type FieldView = (Seq<char>, Seq<char>);

/// An answer.
#[derive(Debug, Clone, PartialEq, Eq)]
pub struct RtspResponse {
    pub status: u16,
    pub cseq: Option<u32>,
    /// The session's id and how long it lives.
    pub session: Option<String>,
    pub headers: Vec<(&'static str, String)>,
    pub body: Vec<u8>,
}

/// What an answer stands for.
#[verifier::ext_equal]
pub struct ResponseView {
    pub status: u16,
    pub cseq: Option<u32>,
    pub session: Option<Seq<char>>,
    pub headers: Seq<FieldView>,
    pub body: Seq<u8>,
}

/// What fields stand for.
pub open spec fn field_views(v: Seq<(&'static str, String)>) -> Seq<FieldView> {
    Seq::new(v.len(), |i: int| (v[i].0@, v[i].1@))
}

impl View for RtspResponse {
    type V = ResponseView;

    open spec fn view(&self) -> ResponseView {
        ResponseView {
            status: self.status,
            cseq: self.cseq,
            session: text_of(self.session),
            headers: field_views(self.headers@),
            body: self.body@,
        }
    }
}

/// Makes an answer.
pub fn response(
    status: u16,
    cseq: Option<u32>,
    session: Option<String>,
    headers: Vec<(&'static str, String)>,
    body: Vec<u8>,
) -> (r: RtspResponse)
    ensures
        r@ == (ResponseView {
            status,
            cseq,
            session: text_of(session),
            headers: field_views(headers@),
            body: body@,
        }),
{
    RtspResponse { status, cseq, session, headers, body }
}

/// The words for a status.
pub open spec fn reason(status: u16) -> Seq<char> {
    if status == STATUS_OK {
        "OK"@
    } else if status == STATUS_BAD_REQUEST {
        "Bad Request"@
    } else if status == STATUS_SESSION_NOT_FOUND {
        "Session Not Found"@
    } else if status == STATUS_UNSUPPORTED_TRANSPORT {
        "Unsupported Transport"@
    } else if status == STATUS_NOT_IMPLEMENTED {
        "Not Implemented"@
    } else {
        "Service Unavailable"@
    }
}

fn reason_phrase(status: u16) -> (r: &'static str)
    ensures
        r@ == reason(status),
{
    if status == STATUS_OK {
        "OK"
    } else if status == STATUS_BAD_REQUEST {
        "Bad Request"
    } else if status == STATUS_SESSION_NOT_FOUND {
        "Session Not Found"
    } else if status == STATUS_UNSUPPORTED_TRANSPORT {
        "Unsupported Transport"
    } else if status == STATUS_NOT_IMPLEMENTED {
        "Not Implemented"
    } else {
        "Service Unavailable"
    }
}

/// Fields, one line each.
pub open spec fn field_lines(fields: Seq<FieldView>) -> Seq<char>
    decreases fields.len(),
{
    if fields.len() == 0 {
        Seq::empty()
    } else {
        field_lines(fields.drop_last()) + (fields.last().0 + ": "@ + fields.last().1 + "\r\n"@)
    }
}

/// The head of an answer.
pub open spec fn head_text(r: ResponseView) -> Seq<char> {
    "RTSP/1.0 "@ + decimal(r.status as nat) + " "@ + reason(r.status) + "\r\n"@ + (match r.cseq {
        Some(n) => "CSeq: "@ + decimal(n as nat) + "\r\n"@,
        None => Seq::empty(),
    }) + (match r.session {
        Some(s) => "Session: "@ + s + "\r\n"@,
        None => Seq::empty(),
    }) + field_lines(r.headers) + (if r.body.len() > 0 {
        "Content-Length: "@ + decimal(r.body.len()) + "\r\n"@
    } else {
        Seq::empty()
    }) + "\r\n"@
}

/// An answer as it is sent.
pub open spec fn response_bytes(r: ResponseView) -> Seq<u8> {
    encode_utf8(head_text(r)) + r.body
}

impl RtspResponse {
    /// The answer as it is sent.
    pub fn to_bytes(&self) -> (r: Vec<u8>)
        ensures
            r@ == response_bytes(self@),
    {
        let mut head = "RTSP/1.0 ".to_owned();
        push_decimal(&mut head, self.status as u64);
        head.append(" ");
        head.append(reason_phrase(self.status));
        head.append("\r\n");
        let ghost line = head@;
        if let Some(n) = self.cseq {
            head.append("CSeq: ");
            push_decimal(&mut head, n as u64);
            head.append("\r\n");
        }
        let ghost cseq_part = (match self.cseq {
            Some(n) => "CSeq: "@ + decimal(n as nat) + "\r\n"@,
            None => Seq::empty(),
        });
        assert(head@ =~= line + cseq_part);
        if let Some(s) = &self.session {
            head.append("Session: ");
            head.append(s.as_str());
            head.append("\r\n");
        }
        let ghost session_part = (match text_of(self.session) {
            Some(s) => "Session: "@ + s + "\r\n"@,
            None => Seq::empty(),
        });
        assert(head@ =~= line + cseq_part + session_part);
        let ghost fields = field_views(self.headers@);
        let ghost before = head@;
        let mut i: usize = 0;
        assert(fields.take(0) =~= Seq::empty());
        assert(head@ =~= before + field_lines(fields.take(0)));
        while i < self.headers.len()
            invariant
                i <= self.headers@.len(),
                fields == field_views(self.headers@),
                head@ == before + field_lines(fields.take(i as int)),
            decreases self.headers@.len() - i,
        {
            head.append(self.headers[i].0);
            head.append(": ");
            head.append(self.headers[i].1.as_str());
            head.append("\r\n");
            proof {
                assert(fields.take(i + 1).drop_last() =~= fields.take(i as int));
                assert(fields.take(i + 1).last() == fields[i as int]);
            }
            i += 1;
            assert(head@ =~= before + field_lines(fields.take(i as int)));
        }
        assert(fields.take(fields.len() as int) =~= fields);
        let ghost with_fields = head@;
        let body_len: usize = self.body.len();
        if body_len > 0 {
            head.append("Content-Length: ");
            push_decimal(&mut head, body_len as u64);
            head.append("\r\n");
        }
        let ghost length_part = (if self.body@.len() > 0 {
            "Content-Length: "@ + decimal(self.body@.len()) + "\r\n"@
        } else {
            Seq::empty()
        });
        assert(head@ =~= with_fields + length_part);
        head.append("\r\n");
        assert(head@ == head_text(self@));
        let mut out: Vec<u8> = Vec::new();
        append_bytes(&mut out, head.as_str().as_bytes());
        append_bytes(&mut out, self.body.as_slice());
        assert(out@ =~= response_bytes(self@));
        out
    }
}

/// A session of a connection.
#[derive(Debug, Clone, PartialEq, Eq)]
pub struct RtspSession {
    pub id: String,
    pub transport: Transport,
    pub playing: bool,
}

/// What a session stands for.
#[verifier::ext_equal]
pub struct SessionView {
    pub id: Seq<char>,
    pub transport: Transport,
    pub playing: bool,
}

impl View for RtspSession {
    type V = SessionView;

    open spec fn view(&self) -> SessionView {
        SessionView { id: self.id@, transport: self.transport, playing: self.playing }
    }
}

/// The sessions of a connection.
pub struct RtspSessions {
    sessions: Vec<RtspSession>,
    next: u64,
}

/// What the sessions of a connection stand for.
#[verifier::ext_equal]
pub struct SessionsView {
    pub sessions: Seq<SessionView>,
    /// Number of the session that is set up next.
    pub next: u64,
}

/// What a list of sessions stands for.
pub open spec fn session_views(v: Seq<RtspSession>) -> Seq<SessionView> {
    Seq::new(v.len(), |i: int| v[i]@)
}

impl View for RtspSessions {
    type V = SessionsView;

    closed spec fn view(&self) -> SessionsView {
        SessionsView { sessions: session_views(self.sessions@), next: self.next }
    }
}

/// The first session from `i` on with an id.
pub open spec fn session_index(s: Seq<SessionView>, id: Seq<char>, i: int) -> Option<int>
    decreases s.len() - i,
{
    if i < 0 || i >= s.len() {
        None
    } else if s[i].id == id {
        Some(i)
    } else {
        session_index(s, id, i + 1)
    }
}

/// The id of a session by its number.
pub open spec fn numbered_id(n: u64) -> Seq<char> {
    padded(n as nat, 8)
}

/// The number after `n`.
pub open spec fn following(n: u64) -> u64 {
    if n == u64::MAX {
        0
    } else {
        (n + 1) as u64
    }
}

impl SessionsView {
    /// After a session was set up.
    pub open spec fn with_session(self, transport: Transport) -> SessionsView {
        SessionsView {
            sessions: self.sessions.push(
                SessionView { id: numbered_id(self.next), transport, playing: false },
            ),
            next: following(self.next),
        }
    }

    /// After a session has gone.
    pub open spec fn without(self, id: Seq<char>) -> SessionsView {
        match session_index(self.sessions, id, 0) {
            Some(i) => SessionsView { sessions: self.sessions.remove(i), ..self },
            None => self,
        }
    }

    /// After a session's stream was started.
    pub open spec fn with_playing(self, i: int) -> SessionsView {
        SessionsView {
            sessions: self.sessions.update(i, SessionView { playing: true, ..self.sessions[i] }),
            ..self
        }
    }
}

/// Whether a session plays.
pub open spec fn some_playing(s: Seq<SessionView>) -> bool {
    exists|i: int| 0 <= i < s.len() && (#[trigger] s[i]).playing
}

impl RtspSessions {
    /// No sessions.
    pub fn new() -> (r: RtspSessions)
        ensures
            r@ == (SessionsView { sessions: Seq::empty(), next: 1 }),
    {
        let r = RtspSessions { sessions: Vec::new(), next: 1 };
        assert(r@.sessions =~= Seq::empty());
        r
    }

    /// Finds a session.
    fn find(&self, id: &str) -> (r: Option<usize>)
        ensures
            match session_index(self@.sessions, id@, 0) {
                Some(k) => r matches Some(i) && i == k && i < self.sessions@.len(),
                None => r is None,
            },
    {
        let ghost views = session_views(self.sessions@);
        let mut i: usize = 0;
        while i < self.sessions.len()
            invariant
                views == session_views(self.sessions@),
                views == self@.sessions,
                session_index(views, id@, 0) == session_index(views, id@, i as int),
            decreases self.sessions@.len() - i,
        {
            assert(views[i as int] == self.sessions@[i as int]@);
            if str_eq(self.sessions[i].id.as_str(), id) {
                return Some(i);
            }
            i += 1;
        }
        None
    }

    /// The session with an id.
    pub fn get(&self, id: &str) -> (r: Option<&RtspSession>)
        ensures
            match session_index(self@.sessions, id@, 0) {
                Some(k) => r matches Some(s) && s@ == self@.sessions[k],
                None => r is None,
            },
    {
        match self.find(id) {
            Some(i) => Some(&self.sessions[i]),
            None => None,
        }
    }

    /// Forgets the session with an id.
    pub fn remove(&mut self, id: &str)
        ensures
            final(self)@ == old(self)@.without(id@),
    {
        if let Some(i) = self.find(id) {
            let ghost before = session_views(self.sessions@);
            self.sessions.remove(i);
            assert(session_views(self.sessions@) =~= before.remove(i as int));
        }
    }

    /// Sets up a session, and gives its id.
    fn add(&mut self, transport: Transport) -> (r: String)
        ensures
            r@ == numbered_id(old(self)@.next),
            final(self)@ == old(self)@.with_session(transport),
    {
        let mut id = String::new();
        push_padded(&mut id, self.next, 8);
        assert(id@ =~= numbered_id(self.next));
        let ghost before = session_views(self.sessions@);
        let session = RtspSession { id: id.as_str().to_owned(), transport, playing: false };
        self.sessions.push(session);
        self.next = if self.next == u64::MAX {
            0
        } else {
            self.next + 1
        };
        assert(session_views(self.sessions@) =~= before.push(session@));
        id
    }

    /// Starts the stream of the session at a place.
    fn start(&mut self, i: usize)
        requires
            i < old(self)@.sessions.len(),
        ensures
            final(self)@ == old(self)@.with_playing(i as int),
    {
        let ghost before = session_views(self.sessions@);
        let transport = self.sessions[i].transport;
        let id = self.sessions[i].id.as_str().to_owned();
        let session = RtspSession { id, transport, playing: true };
        assert(before[i as int] == self.sessions@[i as int]@);
        self.sessions.set(i, session);
        assert(session_views(self.sessions@) =~= before.update(i as int, session@));
    }

    /// Whether a session plays.
    pub fn any_playing(&self) -> (r: bool)
        ensures
            r == some_playing(self@.sessions),
    {
        let ghost views = self@.sessions;
        let mut i: usize = 0;
        while i < self.sessions.len()
            invariant
                i <= self.sessions@.len(),
                views == self@.sessions,
                views == session_views(self.sessions@),
                forall|k: int| 0 <= k < i ==> !(#[trigger] views[k]).playing,
            decreases self.sessions@.len() - i,
        {
            assert(views[i as int] == self.sessions@[i as int]@);
            if self.sessions[i].playing {
                return true;
            }
            i += 1;
        }
        false
    }
}

/// An answer with nothing but a status.
pub open spec fn bare(status: u16, cseq: Option<u32>) -> ResponseView {
    ResponseView { status, cseq, session: None, headers: Seq::empty(), body: Seq::empty() }
}

/// Makes an answer with nothing but a status.
pub fn bare_response(status: u16, cseq: Option<u32>) -> (r: RtspResponse)
    ensures
        r@ == bare(status, cseq),
{
    let r = response(status, cseq, None, Vec::new(), Vec::new());
    assert(r@ =~= bare(status, cseq));
    r
}

/// How a transport is written in an answer.
pub open spec fn transport_text(t: Transport) -> Seq<char> {
    match t {
        Transport::Interleaved { rtp_ch, rtcp_ch } => "RTP/AVP/TCP;unicast;interleaved="@ + decimal(rtp_ch as nat)
            + "-"@ + decimal(rtcp_ch as nat),
        Transport::Udp { client_rtp, client_rtcp, server_rtp, server_rtcp } => "RTP/AVP;unicast;client_port="@
            + decimal(client_rtp as nat) + "-"@ + decimal(client_rtcp as nat) + ";server_port="@ + decimal(
            server_rtp as nat,
        ) + "-"@ + decimal(server_rtcp as nat),
    }
}

fn write_transport(t: Transport) -> (r: String)
    ensures
        r@ == transport_text(t),
{
    match t {
        Transport::Interleaved { rtp_ch, rtcp_ch } => {
            let mut out = "RTP/AVP/TCP;unicast;interleaved=".to_owned();
            push_decimal(&mut out, rtp_ch as u64);
            out.append("-");
            push_decimal(&mut out, rtcp_ch as u64);
            out
        },
        Transport::Udp { client_rtp, client_rtcp, server_rtp, server_rtcp } => {
            let mut out = "RTP/AVP;unicast;client_port=".to_owned();
            push_decimal(&mut out, client_rtp as u64);
            out.append("-");
            push_decimal(&mut out, client_rtcp as u64);
            out.append(";server_port=");
            push_decimal(&mut out, server_rtp as u64);
            out.append("-");
            push_decimal(&mut out, server_rtcp as u64);
            out
        },
    }
}

/// The methods that can be used.
pub const PUBLIC_METHODS: &'static str = "OPTIONS, DESCRIBE, SETUP, PLAY, TEARDOWN, GET_PARAMETER";

/// The answer to `SETUP` and the session that it sets up.
pub open spec fn set_up(cseq: Option<u32>, s: SessionsView, transport: Transport) -> (ResponseView, SessionsView) {
    (
        ResponseView {
            status: STATUS_OK,
            cseq,
            session: Some(numbered_id(s.next) + ";timeout="@ + decimal(SESSION_TIMEOUT_SECS as nat)),
            headers: seq![("Transport"@, transport_text(transport))],
            body: Seq::empty(),
        },
        s.with_session(transport),
    )
}

/// The answer to `DESCRIBE`.
pub open spec fn described(
    req: RequestView,
    server_ip: Seq<char>,
    codec: Option<CodecView>,
    fps: Option<Seq<char>>,
) -> ResponseView {
    match codec {
        None => bare(STATUS_SERVICE_UNAVAILABLE, req.cseq),
        Some(c) => ResponseView {
            status: STATUS_OK,
            cseq: req.cseq,
            session: None,
            headers: seq![("Content-Type"@, "application/sdp"@), ("Content-Base"@, req.uri + "/"@)],
            body: encode_utf8(sdp_text(c, server_ip, fps)),
        },
    }
}

/// The answer to a request, and the sessions after it.
pub open spec fn served(
    req: RequestView,
    s: SessionsView,
    server_ip: Seq<char>,
    codec: Option<CodecView>,
    fps: Option<Seq<char>>,
    server_rtp: u16,
) -> (ResponseView, SessionsView) {
    match req.method {
        Method::Options => (
            ResponseView {
                status: STATUS_OK,
                cseq: req.cseq,
                session: None,
                headers: seq![("Public"@, PUBLIC_METHODS@)],
                body: Seq::empty(),
            },
            s,
        ),
        Method::Describe => (described(req, server_ip, codec, fps), s),
        Method::Setup => match chosen(req.transport, server_rtp) {
            None => (bare(STATUS_UNSUPPORTED_TRANSPORT, req.cseq), s),
            Some(t) => set_up(req.cseq, s, t),
        },
        Method::Play => match req.session {
            None => (bare(STATUS_SESSION_NOT_FOUND, req.cseq), s),
            Some(id) => match session_index(s.sessions, id, 0) {
                None => (bare(STATUS_SESSION_NOT_FOUND, req.cseq), s),
                Some(i) => (
                    ResponseView {
                        status: STATUS_OK,
                        cseq: req.cseq,
                        session: Some(id),
                        headers: seq![("Range"@, "npt=0.000-"@)],
                        body: Seq::empty(),
                    },
                    s.with_playing(i),
                ),
            },
        },
        Method::Teardown => match req.session {
            None => (bare(STATUS_SESSION_NOT_FOUND, req.cseq), s),
            Some(id) => match session_index(s.sessions, id, 0) {
                None => (bare(STATUS_SESSION_NOT_FOUND, req.cseq), s),
                Some(i) => (bare(STATUS_OK, req.cseq), s.without(id)),
            },
        },
        Method::GetParameter => (bare(STATUS_OK, req.cseq), s),
        Method::Unknown => (bare(STATUS_NOT_IMPLEMENTED, req.cseq), s),
    }
}

/// What optional parameters stand for.
pub open spec fn codec_of(codec: Option<&CodecParams>) -> Option<CodecView> {
    match codec {
        Some(c) => Some(c@),
        None => None,
    }
}

/// What an optional text stands for.
pub open spec fn rate_of(fps: Option<&str>) -> Option<Seq<char>> {
    match fps {
        Some(t) => Some(t@),
        None => None,
    }
}

/// One field of an answer.
fn one_field(name: &'static str, value: String) -> (r: Vec<(&'static str, String)>)
    ensures
        field_views(r@) == seq![(name@, value@)],
{
    let mut v: Vec<(&'static str, String)> = Vec::new();
    v.push((name, value));
    assert(field_views(v@) =~= seq![(name@, value@)]);
    v
}

fn describe(req: &RtspRequest, server_ip: &str, codec: Option<&CodecParams>, fps: Option<&str>) -> (r: RtspResponse)
    ensures
        r@ == described(req@, server_ip@, codec_of(codec), rate_of(fps)),
{
    let c = match codec {
        Some(c) => c,
        None => return bare_response(STATUS_SERVICE_UNAVAILABLE, req.cseq),
    };
    let sdp = build_sdp(c, server_ip, fps);
    let mut body: Vec<u8> = Vec::new();
    append_bytes(&mut body, sdp.as_str().as_bytes());
    assert(body@ =~= encode_utf8(sdp@));
    let mut base = req.uri.as_str().to_owned();
    base.append("/");
    let mut headers = one_field("Content-Type", "application/sdp".to_owned());
    let ghost first = headers@;
    headers.push(("Content-Base", base));
    assert(field_views(headers@) =~= field_views(first).push(("Content-Base"@, base@)));
    let r = response(STATUS_OK, req.cseq, None, headers, body);
    assert(r@.headers =~= seq![("Content-Type"@, "application/sdp"@), ("Content-Base"@, req@.uri + "/"@)]);
    r
}

fn play(req: &RtspRequest, sessions: &mut RtspSessions) -> (r: RtspResponse)
    requires
        req.method is Play,
    ensures
        forall|server_ip: Seq<char>, codec: Option<CodecView>, fps: Option<Seq<char>>, server_rtp: u16|
            (r@, final(sessions)@) == #[trigger] served(req@, old(sessions)@, server_ip, codec, fps, server_rtp),
{
    let id = match &req.session {
        Some(id) => id,
        None => return bare_response(STATUS_SESSION_NOT_FOUND, req.cseq),
    };
    match sessions.find(id.as_str()) {
        Some(i) => {
            sessions.start(i);
            let headers = one_field("Range", "npt=0.000-".to_owned());
            let r = response(STATUS_OK, req.cseq, Some(id.as_str().to_owned()), headers, Vec::new());
            assert(r@.body =~= Seq::empty());
            r
        },
        None => bare_response(STATUS_SESSION_NOT_FOUND, req.cseq),
    }
}

fn tear_down(req: &RtspRequest, sessions: &mut RtspSessions) -> (r: RtspResponse)
    requires
        req.method is Teardown,
    ensures
        forall|server_ip: Seq<char>, codec: Option<CodecView>, fps: Option<Seq<char>>, server_rtp: u16|
            (r@, final(sessions)@) == #[trigger] served(req@, old(sessions)@, server_ip, codec, fps, server_rtp),
{
    let id = match &req.session {
        Some(id) => id,
        None => return bare_response(STATUS_SESSION_NOT_FOUND, req.cseq),
    };
    match sessions.find(id.as_str()) {
        Some(_) => {
            sessions.remove(id.as_str());
            bare_response(STATUS_OK, req.cseq)
        },
        None => bare_response(STATUS_SESSION_NOT_FOUND, req.cseq),
    }
}

fn setup(req: &RtspRequest, sessions: &mut RtspSessions, server_rtp: u16) -> (r: RtspResponse)
    requires
        req.method is Setup,
        server_rtp < u16::MAX,
    ensures
        forall|server_ip: Seq<char>, codec: Option<CodecView>, fps: Option<Seq<char>>|
            (r@, final(sessions)@) == #[trigger] served(req@, old(sessions)@, server_ip, codec, fps, server_rtp),
{
    match choose_transport(&req.transport, server_rtp) {
        None => bare_response(STATUS_UNSUPPORTED_TRANSPORT, req.cseq),
        Some(t) => {
            let mut session = sessions.add(t);
            session.append(";timeout=");
            push_decimal(&mut session, SESSION_TIMEOUT_SECS as u64);
            let headers = one_field("Transport", write_transport(t));
            let r = response(STATUS_OK, req.cseq, Some(session), headers, Vec::new());
            assert(r@.body =~= Seq::empty());
            r
        },
    }
}

/// Answers a request. `fps` is the frame rate as text, and `server_rtp` the port that a stream of
/// datagrams would be sent from.
pub fn handle_request(
    req: &RtspRequest,
    sessions: &mut RtspSessions,
    server_ip: &str,
    codec: Option<&CodecParams>,
    fps: Option<&str>,
    server_rtp: u16,
) -> (r: RtspResponse)
    requires
        server_rtp < u16::MAX,
    ensures
        (r@, final(sessions)@) == served(
            req@,
            old(sessions)@,
            server_ip@,
            codec_of(codec),
            rate_of(fps),
            server_rtp,
        ),
{
    match req.method {
        Method::Options => {
            let headers = one_field("Public", PUBLIC_METHODS.to_owned());
            let r = response(STATUS_OK, req.cseq, None, headers, Vec::new());
            assert(r@.body =~= Seq::empty());
            r
        },
        Method::Describe => describe(req, server_ip, codec, fps),
        Method::Setup => setup(req, sessions, server_rtp),
        Method::Play => play(req, sessions),
        Method::Teardown => tear_down(req, sessions),
        Method::GetParameter => bare_response(STATUS_OK, req.cseq),
        Method::Unknown => bare_response(STATUS_NOT_IMPLEMENTED, req.cseq),
    }
}

} // verus!
