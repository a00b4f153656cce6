//! WebSocket: frames as bytes, and the opening handshake from the server's side.

use crate::base64::{base64, base64_encode};
use crate::bytes::{append_be16, append_bytes, be16, be16_bytes, lemma_be16_bytes_read_back, read_be16};
use crate::http::{find_terminator, header_of, header_value, terminator_from};
use crate::sha1::{digest, sha1};
use crate::text::{
    chars_eq, chars_of, decimal, hex2_lower, lowered, pieces, push_decimal, push_hex2_lower, split, str_eq,
    text_views, to_lower, trim, trimmed, utf8_text,
};
use vstd::prelude::*;
use vstd::slice::{slice_subrange, slice_to_vec};
use vstd::utf8::{decode_utf8, encode_utf8, valid_utf8};

verus! {

/// Largest payload that a frame may announce.
pub const MAX_FRAME_PAYLOAD: u64 = 16_777_216;

pub const OPCODE_CONTINUATION: u8 = 0x0;

pub const OPCODE_TEXT: u8 = 0x1;

pub const OPCODE_BINARY: u8 = 0x2;

pub const OPCODE_CLOSE: u8 = 0x8;

pub const OPCODE_PING: u8 = 0x9;

pub const OPCODE_PONG: u8 = 0xA;

/// What a frame carries.
#[derive(Debug, Clone, Copy, PartialEq, Eq, Structural)]
pub enum Opcode {
    Continuation,
    Text,
    Binary,
    Close,
    Ping,
    Pong,
}

impl Opcode {
    pub open spec fn code(self) -> u8 {
        match self {
            Opcode::Continuation => OPCODE_CONTINUATION,
            Opcode::Text => OPCODE_TEXT,
            Opcode::Binary => OPCODE_BINARY,
            Opcode::Close => OPCODE_CLOSE,
            Opcode::Ping => OPCODE_PING,
            Opcode::Pong => OPCODE_PONG,
        }
    }

    /// The four bits that name it.
    pub fn to_byte(self) -> (r: u8)
        ensures
            r == self.code(),
    {
        match self {
            Opcode::Continuation => OPCODE_CONTINUATION,
            Opcode::Text => OPCODE_TEXT,
            Opcode::Binary => OPCODE_BINARY,
            Opcode::Close => OPCODE_CLOSE,
            Opcode::Ping => OPCODE_PING,
            Opcode::Pong => OPCODE_PONG,
        }
    }

    /// The opcode that four bits name; the others are reserved.
    pub fn from_byte(b: u8) -> (r: Option<Opcode>)
        ensures
            r matches Some(o) ==> o.code() == b,
            r is None ==> forall|o: Opcode| #![trigger o.code()] o.code() != b,
    {
        if b == OPCODE_CONTINUATION {
            Some(Opcode::Continuation)
        } else if b == OPCODE_TEXT {
            Some(Opcode::Text)
        } else if b == OPCODE_BINARY {
            Some(Opcode::Binary)
        } else if b == OPCODE_CLOSE {
            Some(Opcode::Close)
        } else if b == OPCODE_PING {
            Some(Opcode::Ping)
        } else if b == OPCODE_PONG {
            Some(Opcode::Pong)
        } else {
            None
        }
    }
}

/// A frame with its payload unmasked.
#[derive(Debug, PartialEq, Eq)]
pub struct Frame {
    pub fin: bool,
    /// Four bits, reserved ones among them.
    pub opcode: u8,
    pub payload: Vec<u8>,
}

/// What a frame stands for.
#[verifier::ext_equal]
pub struct FrameView {
    pub fin: bool,
    pub opcode: u8,
    pub payload: Seq<u8>,
}

impl View for Frame {
    type V = FrameView;

    open spec fn view(&self) -> FrameView {
        FrameView { fin: self.fin, opcode: self.opcode, payload: self.payload@ }
    }
}

/// The number in eight bytes, most significant first.
pub open spec fn be64_at(s: Seq<u8>, i: int) -> int {
    be16(s[i], s[i + 1]) * 0x1_0000_0000_0000 + be16(s[i + 2], s[i + 3]) * 0x1_0000_0000 + be16(
        s[i + 4],
        s[i + 5],
    ) * 0x1_0000 + be16(s[i + 6], s[i + 7])
}

/// How many bytes stand before the mask, as the second byte says.
pub open spec fn length_end(b: u8) -> int {
    if b % 128 == 126 {
        4
    } else if b % 128 == 127 {
        10
    } else {
        2
    }
}

/// The payload length that a header with its length bytes announces.
pub open spec fn announced_len(s: Seq<u8>) -> int {
    if s[1] % 128 == 126 {
        be16(s[2], s[3])
    } else if s[1] % 128 == 127 {
        be64_at(s, 2)
    } else {
        s[1] as int % 128
    }
}

/// Where the payload begins.
pub open spec fn payload_start(s: Seq<u8>) -> int {
    length_end(s[1]) + if s[1] >= 128 {
        4int
    } else {
        0
    }
}

/// `s` with every byte combined with the mask byte whose turn it is.
pub open spec fn masked(s: Seq<u8>, mask: Seq<u8>) -> Seq<u8> {
    Seq::new(s.len(), |i: int| s[i] ^ mask[i % 4])
}

/// What stands at the head of a byte stream.
pub enum FrameStep {
    /// Less than a frame.
    Incomplete,
    /// A frame that announces more than it may.
    TooLarge(int),
    /// A frame, and how many bytes it takes.
    Whole(FrameView, int),
}

/// The frame at the head of `s`.
pub open spec fn frame_at(s: Seq<u8>) -> FrameStep {
    if s.len() < 2 || s.len() < length_end(s[1]) {
        FrameStep::Incomplete
    } else if announced_len(s) > MAX_FRAME_PAYLOAD {
        FrameStep::TooLarge(announced_len(s))
    } else if s.len() < payload_start(s) + announced_len(s) {
        FrameStep::Incomplete
    } else {
        let start = payload_start(s);
        let end = start + announced_len(s);
        let raw = s.subrange(start, end);
        FrameStep::Whole(
            FrameView {
                fin: s[0] >= 128,
                opcode: (s[0] % 16) as u8,
                payload: if s[1] >= 128 {
                    masked(raw, s.subrange(start - 4, start))
                } else {
                    raw
                },
            },
            end,
        )
    }
}

/// What `read_frame` found.
#[derive(Debug, PartialEq, Eq)]
pub enum FrameRead {
    /// More bytes are needed.
    Incomplete,
    /// The payload would have this many bytes, more than is allowed.
    TooLarge(u64),
    /// A frame, and how many of the bytes were its.
    Whole(Frame, usize),
}

/// Reads the frame at the head of `buf`, unmasking its payload.
pub fn read_frame(buf: &[u8]) -> (r: FrameRead)
    ensures
        match frame_at(buf@) {
            FrameStep::Incomplete => r is Incomplete,
            FrameStep::TooLarge(n) => r matches FrameRead::TooLarge(len) && len == n,
            FrameStep::Whole(f, n) => r matches FrameRead::Whole(frame, used) && frame@ == f && used == n
                && n <= buf@.len(),
        },
{
    let total: usize = buf.len();
    if total < 2 {
        return FrameRead::Incomplete;
    }
    let short: u8 = buf[1] % 128;
    let (len, after_len): (u64, usize) = if short == 126 {
        if total < 4 {
            return FrameRead::Incomplete;
        }
        (read_be16(buf[2], buf[3]) as u64, 4)
    } else if short == 127 {
        if total < 10 {
            return FrameRead::Incomplete;
        }
        (
            read_be16(buf[2], buf[3]) as u64 * 0x1_0000_0000_0000 + read_be16(buf[4], buf[5]) as u64
                * 0x1_0000_0000 + read_be16(buf[6], buf[7]) as u64 * 0x1_0000 + read_be16(buf[8], buf[9]) as u64,
            10,
        )
    } else {
        (short as u64, 2)
    };
    if len > MAX_FRAME_PAYLOAD {
        return FrameRead::TooLarge(len);
    }
    let is_masked = buf[1] >= 128;
    let start: usize = if is_masked {
        after_len + 4
    } else {
        after_len
    };
    if total < start || ((total - start) as u64) < len {
        return FrameRead::Incomplete;
    }
    let end: usize = start + len as usize;
    let mut payload: Vec<u8> = slice_to_vec(slice_subrange(buf, start, end));
    let ghost raw = buf@.subrange(start as int, end as int);
    assert(payload@ =~= raw);
    if is_masked {
        let mask: [u8; 4] = [buf[start - 4], buf[start - 3], buf[start - 2], buf[start - 1]];
        assert(mask@ =~= buf@.subrange(start - 4, start as int));
        let mut i: usize = 0;
        while i < payload.len()
            invariant
                i <= payload@.len() == raw.len(),
                forall|k: int| 0 <= k < i ==> payload@[k] == raw[k] ^ mask@[k % 4],
                forall|k: int| i <= k < raw.len() ==> payload@[k] == raw[k],
            decreases raw.len() - i,
        {
            let b: u8 = payload[i] ^ mask[i % 4];
            payload.set(i, b);
            i += 1;
        }
        assert(payload@ =~= masked(raw, mask@));
    }
    FrameRead::Whole(Frame { fin: buf[0] >= 128, opcode: buf[0] % 16, payload }, end)
}

/// The first two bytes, and the length where it needs more.
pub open spec fn frame_head(fin: bool, opcode: u8, len: int) -> Seq<u8> {
    let first = ((if fin {
        128int
    } else {
        0
    }) + opcode % 16) as u8;
    if len <= 125 {
        seq![first, len as u8]
    } else if len <= 0xFFFF {
        seq![first, 126u8] + be16_bytes(len)
    } else {
        seq![first, 127u8] + be16_bytes(len / 0x1_0000_0000_0000) + be16_bytes(len / 0x1_0000_0000 % 0x1_0000)
            + be16_bytes(len / 0x1_0000 % 0x1_0000) + be16_bytes(len % 0x1_0000)
    }
}

/// A frame as a server sends it, without a mask.
pub open spec fn frame_bytes(fin: bool, opcode: u8, payload: Seq<u8>) -> Seq<u8> {
    frame_head(fin, opcode, payload.len() as int) + payload
}

/// A frame as a client sends it.
pub open spec fn client_frame_bytes(fin: bool, opcode: u8, mask: Seq<u8>, payload: Seq<u8>) -> Seq<u8> {
    let head = frame_head(fin, opcode, payload.len() as int);
    head.update(1, (head[1] + 128) as u8) + mask + masked(payload, mask)
}

/// The bytes of a frame that the server sends.
pub fn write_frame(opcode: u8, fin: bool, payload: &[u8]) -> (r: Vec<u8>)
    ensures
        r@ == frame_bytes(fin, opcode, payload@),
{
    let mut out: Vec<u8> = Vec::new();
    let len: usize = payload.len();
    out.push((if fin {
        128
    } else {
        0
    }) + opcode % 16);
    if len <= 125 {
        out.push(len as u8);
    } else if len <= 0xFFFF {
        out.push(126);
        append_be16(&mut out, len as u16);
    } else {
        let wide: u64 = len as u64;
        out.push(127);
        append_be16(&mut out, (wide / 0x1_0000_0000_0000) as u16);
        append_be16(&mut out, (wide / 0x1_0000_0000 % 0x1_0000) as u16);
        append_be16(&mut out, (wide / 0x1_0000 % 0x1_0000) as u16);
        append_be16(&mut out, (wide % 0x1_0000) as u16);
    }
    assert(out@ =~= frame_head(fin, opcode, len as int));
    append_bytes(&mut out, payload);
    out
}

proof fn lemma_head(fin: bool, opcode: u8, len: int)
    requires
        0 <= len <= MAX_FRAME_PAYLOAD,
        opcode < 16,
    ensures
        ({
            let h = frame_head(fin, opcode, len);
            &&& h.len() == length_end(h[1])
            &&& h[1] < 128
            &&& announced_len(h) == len
            &&& (h[0] >= 128) == fin
            &&& h[0] % 16 == opcode
        }),
{
    lemma_be16_bytes_read_back(len % 0x1_0000);
    lemma_be16_bytes_read_back(len / 0x1_0000 % 0x1_0000);
    lemma_be16_bytes_read_back(len / 0x1_0000_0000 % 0x1_0000);
    lemma_be16_bytes_read_back(len / 0x1_0000_0000_0000);
    if len <= 0xFFFF {
        lemma_be16_bytes_read_back(len);
    }
}

/// What the server writes is read back as the frame it was, whatever follows it.
pub proof fn law_reading_undoes_writing(fin: bool, opcode: u8, payload: Seq<u8>, rest: Seq<u8>)
    requires
        opcode < 16,
        payload.len() <= MAX_FRAME_PAYLOAD,
    ensures
        frame_at(frame_bytes(fin, opcode, payload) + rest) == FrameStep::Whole(
            FrameView { fin, opcode, payload },
            frame_bytes(fin, opcode, payload).len() as int,
        ),
{
    let h = frame_head(fin, opcode, payload.len() as int);
    lemma_head(fin, opcode, payload.len() as int);
    let s = frame_bytes(fin, opcode, payload) + rest;
    assert(s.take(h.len() as int) =~= h);
    assert(forall|i: int| 0 <= i < h.len() ==> s[i] == h[i]);
    assert(s.subrange(h.len() as int, h.len() as int + payload.len()) =~= payload);
}

/// What a client sends under a mask is read back as the frame it was, whatever follows it.
pub proof fn law_masks_are_undone(fin: bool, opcode: u8, mask: Seq<u8>, payload: Seq<u8>, rest: Seq<u8>)
    requires
        opcode < 16,
        mask.len() == 4,
        payload.len() <= MAX_FRAME_PAYLOAD,
    ensures
        frame_at(client_frame_bytes(fin, opcode, mask, payload) + rest) == FrameStep::Whole(
            FrameView { fin, opcode, payload },
            client_frame_bytes(fin, opcode, mask, payload).len() as int,
        ),
{
    let h = frame_head(fin, opcode, payload.len() as int);
    lemma_head(fin, opcode, payload.len() as int);
    let s = client_frame_bytes(fin, opcode, mask, payload) + rest;
    assert(s[1] == h[1] + 128);
    assert(forall|i: int| 0 <= i < h.len() && i != 1 ==> s[i] == h[i]);
    let start = h.len() as int + 4;
    assert(s.subrange(start - 4, start) =~= mask);
    let raw = masked(payload, mask);
    assert(s.subrange(start, start + payload.len()) =~= raw);
    assert(masked(raw, mask) =~= payload) by {
        assert forall|i: int| 0 <= i < payload.len() implies masked(raw, mask)[i] == payload[i] by {
            lemma_xor_twice(payload[i], mask[i % 4]);
        }
    }
}

proof fn lemma_xor_twice(a: u8, b: u8)
    by (bit_vector)
    ensures
        (a ^ b) ^ b == a,
{
}

/// A frame with an opcode that is not reserved.
#[derive(Debug, PartialEq, Eq)]
pub struct WsFrame {
    pub fin: bool,
    pub opcode: Opcode,
    pub payload: Vec<u8>,
}

/// What such a frame stands for.
#[verifier::ext_equal]
pub struct WsFrameView {
    pub fin: bool,
    pub opcode: Opcode,
    pub payload: Seq<u8>,
}

impl View for WsFrame {
    type V = WsFrameView;

    open spec fn view(&self) -> WsFrameView {
        WsFrameView { fin: self.fin, opcode: self.opcode, payload: self.payload@ }
    }
}

/// What ends a connection at the level of frames.
#[derive(Debug, PartialEq, Eq)]
pub enum WsError {
    /// The peer closed inside a frame, or the stream failed.
    Io(String),
    /// A frame announces more than it may.
    TooLarge(u64),
    /// A frame has a reserved opcode.
    ReservedOpcode(u8),
}

/// An error in words.
pub open spec fn ws_error_text(e: WsError) -> Seq<char> {
    match e {
        WsError::Io(why) => why@,
        WsError::TooLarge(n) => "frame of "@ + decimal(n as nat) + " bytes is too large"@,
        WsError::ReservedOpcode(b) => "reserved opcode 0x"@ + hex2_lower(b),
    }
}

impl WsError {
    /// The error in words.
    pub fn message(&self) -> (r: String)
        ensures
            r@ == ws_error_text(*self),
    {
        match self {
            WsError::Io(why) => why.as_str().to_owned(),
            WsError::TooLarge(n) => {
                let mut out = "frame of ".to_owned();
                push_decimal(&mut out, *n);
                out.append(" bytes is too large");
                out
            },
            WsError::ReservedOpcode(b) => {
                let mut out = "reserved opcode 0x".to_owned();
                push_hex2_lower(&mut out, *b);
                out
            },
        }
    }
}

/// What `parse_frame` found.
#[derive(Debug, PartialEq, Eq)]
pub enum WsRead {
    /// More bytes are needed.
    Incomplete,
    /// A frame, and how many of the bytes were its.
    Whole(WsFrame, usize),
}

/// Reads the frame at the head of `buf`.
pub fn parse_frame(buf: &[u8]) -> (r: Result<WsRead, WsError>)
    ensures
        match frame_at(buf@) {
            FrameStep::Incomplete => r matches Ok(WsRead::Incomplete),
            FrameStep::TooLarge(n) => r matches Err(WsError::TooLarge(len)) && len == n,
            FrameStep::Whole(f, n) => if exists|o: Opcode| #![trigger o.code()] o.code() == f.opcode {
                r matches Ok(WsRead::Whole(frame, used)) && frame.fin == f.fin && frame.opcode.code()
                    == f.opcode && frame.payload@ == f.payload && used == n
            } else {
                r matches Err(WsError::ReservedOpcode(b)) && b == f.opcode
            },
        },
{
    match read_frame(buf) {
        FrameRead::Incomplete => Ok(WsRead::Incomplete),
        FrameRead::TooLarge(len) => Err(WsError::TooLarge(len)),
        FrameRead::Whole(frame, used) => match Opcode::from_byte(frame.opcode) {
            Some(opcode) => Ok(
                WsRead::Whole(WsFrame { fin: frame.fin, opcode, payload: frame.payload }, used),
            ),
            None => Err(WsError::ReservedOpcode(frame.opcode)),
        },
    }
}

/// The bytes of a frame that the server sends.
pub fn encode_frame(frame: &WsFrame) -> (r: Vec<u8>)
    ensures
        r@ == frame_bytes(frame.fin, frame.opcode.code(), frame.payload@),
{
    write_frame(frame.opcode.to_byte(), frame.fin, frame.payload.as_slice())
}

/// Appended to the client's key before hashing.
pub open spec fn guid() -> Seq<char> {
    "258EAFA5-E914-47DA-95CA-C5AB0DC85B11"@
}

/// The proof that the server read the key: the SHA-1 of key and GUID, in Base64.
pub open spec fn accept_of(key: Seq<char>) -> Seq<char> {
    base64(digest(encode_utf8(key) + encode_utf8(guid())))
}

/// The value of `Sec-WebSocket-Accept` for a key.
pub fn websocket_accept(key: &str) -> (r: String)
    ensures
        r@ == accept_of(key@),
{
    let mut input: Vec<u8> = Vec::new();
    append_bytes(&mut input, key.as_bytes());
    append_bytes(&mut input, "258EAFA5-E914-47DA-95CA-C5AB0DC85B11".as_bytes());
    assert(input@ =~= encode_utf8(key@) + encode_utf8(guid()));
    base64_encode(sha1(input.as_slice()).as_slice())
}

/// The subprotocol that cameras offer.
pub open spec fn subprotocol() -> Seq<char> {
    "secure_transfer"@
}

/// Whether a request offers a subprotocol, however it is capitalised.
pub open spec fn offers(request: Seq<char>, protocol: Seq<char>) -> bool {
    match header_of(request, "Sec-WebSocket-Protocol"@) {
        Some(value) => exists|i: int|
            0 <= i < pieces(value, seq![',']).len() && lowered(
                trimmed(#[trigger] pieces(value, seq![','])[i]),
            ) == protocol,
        None => false,
    }
}

/// The subprotocols that a request offers, trimmed and in lower case.
pub fn request_subprotocols(request: &str) -> (r: Vec<Vec<char>>)
    ensures
        match header_of(request@, "Sec-WebSocket-Protocol"@) {
            Some(value) => text_views(r@) == pieces(value, seq![',']).map_values(
                |t: Seq<char>| lowered(trimmed(t)),
            ),
            None => r@.len() == 0,
        },
{
    let mut out: Vec<Vec<char>> = Vec::new();
    let value = match header_value(request, "Sec-WebSocket-Protocol") {
        Some(v) => v,
        None => return out,
    };
    let comma: [char; 1] = [','];
    assert(comma@ =~= seq![',']);
    let chars = chars_of(value.as_str());
    let parts = split(chars.as_slice(), comma.as_slice());
    let ghost views = text_views(parts@);
    let ghost goal = views.map_values(|t: Seq<char>| lowered(trimmed(t)));
    let mut i: usize = 0;
    while i < parts.len()
        invariant
            i <= parts@.len(),
            views == text_views(parts@),
            goal == views.map_values(|t: Seq<char>| lowered(trimmed(t))),
            text_views(out@) == goal.take(i as int),
        decreases parts@.len() - i,
    {
        let token = lower_copy(trim(parts[i].as_slice()));
        let ghost before = text_views(out@);
        out.push(token);
        assert(text_views(out@) =~= before.push(lowered(trimmed(views[i as int]))));
        assert(text_views(out@) =~= goal.take(i + 1));
        i += 1;
    }
    assert(text_views(out@) =~= goal);
    out
}

/// A copy with ASCII letters in lower case.
fn lower_copy(v: &[char]) -> (r: Vec<char>)
    ensures
        r@ == lowered(v@),
{
    let mut out: Vec<char> = Vec::new();
    let mut i: usize = 0;
    while i < v.len()
        invariant
            i <= v@.len(),
            out@ == lowered(v@.take(i as int)),
        decreases v@.len() - i,
    {
        out.push(to_lower(v[i]));
        i += 1;
        assert(out@ =~= lowered(v@.take(i as int)));
    }
    assert(v@.take(v@.len() as int) =~= v@);
    out
}

/// The key in a request.
pub open spec fn key_of(request: Seq<char>) -> Option<Seq<char>> {
    header_of(request, "Sec-WebSocket-Key"@)
}

/// The value of `Sec-WebSocket-Key`.
pub fn extract_websocket_key(request: &str) -> (r: Option<String>)
    ensures
        match key_of(request@) {
            Some(k) => r matches Some(t) && t@ == k,
            None => r is None,
        },
{
    header_value(request, "Sec-WebSocket-Key")
}

/// Whether a request is for the version of the protocol that is spoken here.
pub open spec fn is_current(request: Seq<char>) -> bool {
    header_of(request, "Sec-WebSocket-Version"@) == Some("13"@)
}

fn asks_for_current(request: &str) -> (r: bool)
    ensures
        r == is_current(request@),
{
    match header_value(request, "Sec-WebSocket-Version") {
        Some(version) => str_eq(version.as_str(), "13"),
        None => false,
    }
}

/// The answer to an upgrade request with this key.
pub open spec fn upgrade_answer(request: Seq<char>, key: Seq<char>) -> Seq<char> {
    "HTTP/1.1 101 Switching Protocols\r\nUpgrade: websocket\r\nConnection: Upgrade\r\nSec-WebSocket-Accept: "@
        + accept_of(key) + "\r\n"@ + (if offers(request, subprotocol()) {
        "Sec-WebSocket-Protocol: secure_transfer\r\n"@
    } else {
        ""@
    }) + "\r\n"@
}

/// The answer to a request that carries a key.
pub fn upgrade_response(request: &str) -> (r: Option<String>)
    ensures
        match key_of(request@) {
            Some(k) => r matches Some(t) && t@ == upgrade_answer(request@, k),
            None => r is None,
        },
{
    let key = match extract_websocket_key(request) {
        Some(k) => k,
        None => return None,
    };
    let mut out =
        "HTTP/1.1 101 Switching Protocols\r\nUpgrade: websocket\r\nConnection: Upgrade\r\nSec-WebSocket-Accept: ".to_owned();
    out.append(websocket_accept(key.as_str()).as_str());
    out.append("\r\n");
    if offers_subprotocol(request) {
        out.append("Sec-WebSocket-Protocol: secure_transfer\r\n");
    } else {
        out.append("");
    }
    out.append("\r\n");
    Some(out)
}

/// Whether a request offers the cameras' subprotocol.
fn offers_subprotocol(request: &str) -> (r: bool)
    ensures
        r == offers(request@, subprotocol()),
{
    let wanted = chars_of("secure_transfer");
    let offered = request_subprotocols(request);
    let ghost list = pieces(header_of(request@, "Sec-WebSocket-Protocol"@)->0, seq![',']);
    let mut i: usize = 0;
    while i < offered.len()
        invariant
            i <= offered@.len(),
            wanted@ == subprotocol(),
            header_of(request@, "Sec-WebSocket-Protocol"@) is None ==> offered@.len() == 0,
            header_of(request@, "Sec-WebSocket-Protocol"@) is Some ==> text_views(offered@)
                == list.map_values(|t: Seq<char>| lowered(trimmed(t))),
            list == pieces(header_of(request@, "Sec-WebSocket-Protocol"@)->0, seq![',']),
            forall|k: int| 0 <= k < i ==> lowered(trimmed(#[trigger] list[k])) != subprotocol(),
        decreases offered@.len() - i,
    {
        assert(text_views(offered@)[i as int] == lowered(trimmed(list[i as int])));
        if chars_eq(offered[i].as_slice(), wanted.as_slice()) {
            return true;
        }
        i += 1;
    }
    proof {
        if header_of(request@, "Sec-WebSocket-Protocol"@) is Some {
            assert(text_views(offered@).len() == list.len());
        }
    }
    false
}

/// Most bytes that are searched for an upgrade request.
pub const MAX_HANDSHAKE_HEADER_BYTES: usize = 8192;

/// What the bytes received so far amount to.
pub enum UpgradeCheck {
    /// No complete header block yet.
    Incomplete,
    /// A header block that is not UTF-8.
    NotText,
    /// A request without a key.
    NoKey,
    /// A request for another version of the protocol.
    OtherVersion,
    /// A request that ends before this place, and the answer to it.
    Ready(int, Seq<char>),
}

/// Checks for an upgrade request at the head of `s`, of any version or only of the current one.
pub open spec fn upgrade_check(s: Seq<u8>, any_version: bool) -> UpgradeCheck {
    match terminator_from(s, 0) {
        None => UpgradeCheck::Incomplete,
        Some(i) => {
            let head = s.take(i + 4);
            if !valid_utf8(head) {
                UpgradeCheck::NotText
            } else {
                let request = decode_utf8(head);
                match key_of(request) {
                    None => UpgradeCheck::NoKey,
                    Some(key) => if any_version || is_current(request) {
                        UpgradeCheck::Ready(i + 4, upgrade_answer(request, key))
                    } else {
                        UpgradeCheck::OtherVersion
                    },
                }
            }
        },
    }
}

/// What is wrong with a header block.
#[derive(Debug, Clone, Copy, PartialEq, Eq, Structural)]
pub enum TapTrouble {
    /// It is not UTF-8.
    NotText,
    /// It has no key.
    NoKey,
    /// It is for another version of the protocol.
    OtherVersion,
}

/// What is wrong with what has come, if a header block is complete.
pub open spec fn trouble_in(check: UpgradeCheck) -> Option<TapTrouble> {
    match check {
        UpgradeCheck::NotText => Some(TapTrouble::NotText),
        UpgradeCheck::NoKey => Some(TapTrouble::NoKey),
        UpgradeCheck::OtherVersion => Some(TapTrouble::OtherVersion),
        _ => None,
    }
}

/// What to do after bytes have come.
#[derive(Debug, PartialEq, Eq)]
pub enum TapStep {
    /// Read on; nothing to report.
    More,
    /// Read on; what looked like a request is none.
    Trouble(TapTrouble),
    /// Read on without looking for a request any more: so many bytes hold none. Where they hold a
    /// header block, `trouble` says what is wrong with it.
    GaveUp { len: usize, trouble: Option<TapTrouble> },
    /// Send `response`; `request` was the header block, and `leftover` already belongs to the frames.
    Upgraded { request: Vec<u8>, response: String, leftover: Vec<u8> },
}

/// Waits in the bytes of a connection for the upgrade request.
#[derive(Debug, PartialEq, Eq)]
pub struct UpgradeTap {
    buf: Vec<u8>,
    first_byte_seen: bool,
    searching: bool,
    /// Whether a request of any version will do, and the first one without a key ends the search.
    one_try: bool,
}

/// What a tap has gathered.
#[verifier::ext_equal]
pub struct TapView {
    pub buf: Seq<u8>,
    pub first_byte_seen: bool,
    pub searching: bool,
    pub one_try: bool,
}

impl View for UpgradeTap {
    type V = TapView;

    closed spec fn view(&self) -> TapView {
        TapView {
            buf: self.buf@,
            first_byte_seen: self.first_byte_seen,
            searching: self.searching,
            one_try: self.one_try,
        }
    }
}

impl TapView {
    /// The tap after a chunk.
    pub open spec fn after(self, chunk: Seq<u8>) -> TapView {
        if !self.searching {
            TapView { first_byte_seen: true, ..self }
        } else {
            let buf = self.buf + chunk;
            TapView {
                buf,
                first_byte_seen: true,
                searching: match upgrade_check(buf, self.one_try) {
                    UpgradeCheck::Ready(_, _) => true,
                    UpgradeCheck::NoKey => buf.len() <= MAX_HANDSHAKE_HEADER_BYTES && !self.one_try,
                    _ => buf.len() <= MAX_HANDSHAKE_HEADER_BYTES,
                },
                one_try: self.one_try,
            }
        }
    }
}

impl UpgradeTap {
    /// A tap that has seen nothing. With `one_try`, a request of any version will do, and one
    /// without a key is the last that is looked at.
    pub fn new(one_try: bool) -> (r: UpgradeTap)
        ensures
            r@ == (TapView { buf: Seq::empty(), first_byte_seen: false, searching: true, one_try }),
    {
        let r = UpgradeTap { buf: Vec::new(), first_byte_seen: false, searching: true, one_try };
        assert(r@ =~= TapView { buf: Seq::empty(), first_byte_seen: false, searching: true, one_try });
        r
    }

    /// Takes the bytes that have come. The search goes on until a request is found, or until the
    /// limit on its size is passed.
    pub fn on_bytes(&mut self, chunk: &[u8]) -> (r: TapStep)
        ensures
            final(self)@ == old(self)@.after(chunk@),
            !old(self)@.searching ==> r is More,
            old(self)@.searching ==> ({
                let buf = old(self)@.buf + chunk@;
                match upgrade_check(buf, old(self)@.one_try) {
                    UpgradeCheck::Ready(end, answer) => r matches TapStep::Upgraded {
                        request,
                        response,
                        leftover,
                    } && request@ == buf.take(end) && response@ == answer && leftover@ == buf.skip(end),
                    other => if buf.len() > MAX_HANDSHAKE_HEADER_BYTES {
                        r matches TapStep::GaveUp { len, trouble } && len == buf.len() && trouble == trouble_in(other)
                    } else {
                        match trouble_in(other) {
                            Some(t) => r == TapStep::Trouble(t),
                            None => r is More,
                        }
                    },
                }
            }),
    {
        self.first_byte_seen = true;
        if !self.searching {
            assert(self@ =~= old(self)@.after(chunk@));
            return TapStep::More;
        }
        append_bytes(&mut self.buf, chunk);
        let total: usize = self.buf.len();
        let trouble: Option<TapTrouble> = match find_terminator(self.buf.as_slice()) {
            None => None,
            Some(i) => {
                let end: usize = i + 4;
                let head = slice_subrange(self.buf.as_slice(), 0, end);
                assert(head@ =~= self.buf@.take(end as int));
                match utf8_text(head) {
                    None => Some(TapTrouble::NotText),
                    Some(request) => match upgrade_response(request) {
                        None => Some(TapTrouble::NoKey),
                        Some(response) => if self.one_try || asks_for_current(request) {
                            let tail = slice_subrange(self.buf.as_slice(), end, total);
                            assert(tail@ =~= self.buf@.skip(end as int));
                            assert(self@ =~= old(self)@.after(chunk@));
                            return TapStep::Upgraded {
                                request: slice_to_vec(head),
                                response,
                                leftover: slice_to_vec(tail),
                            };
                        } else {
                            Some(TapTrouble::OtherVersion)
                        },
                    },
                }
            },
        };
        if total > MAX_HANDSHAKE_HEADER_BYTES {
            self.searching = false;
            assert(self@ =~= old(self)@.after(chunk@));
            return TapStep::GaveUp { len: total, trouble };
        }
        let mut step = TapStep::More;
        if let Some(t) = trouble {
            if self.one_try && t == TapTrouble::NoKey {
                self.searching = false;
            }
            step = TapStep::Trouble(t);
        }
        assert(self@ =~= old(self)@.after(chunk@));
        step
    }

    /// Whether a connection that is silent is given up: only before its first byte, and only once
    /// the deadline has passed.
    pub fn is_given_up(&self, deadline_passed: bool) -> (r: bool)
        ensures
            r == (!self@.first_byte_seen && deadline_passed),
    {
        !self.first_byte_seen && deadline_passed
    }
}

/// What to do when a read has to wait.
#[derive(Debug, Clone, Copy, PartialEq, Eq, Structural)]
pub enum StallAction {
    /// End: the process is shutting down.
    Shutdown,
    /// End: the peer has been silent for too long.
    TimedOut,
    /// Sleep and read again.
    Retry,
}

/// What to do when a read has to wait.
pub fn on_stall(shutdown: bool, deadline_passed: bool) -> (r: StallAction)
    ensures
        shutdown ==> r is Shutdown,
        !shutdown && deadline_passed ==> r is TimedOut,
        !shutdown && !deadline_passed ==> r is Retry,
{
    if shutdown {
        StallAction::Shutdown
    } else if deadline_passed {
        StallAction::TimedOut
    } else {
        StallAction::Retry
    }
}

/// The message for a peer that closes after `s`: none between frames, and otherwise what was cut
/// short, by name where not a byte of it had come.
pub open spec fn cut_short(s: Seq<u8>) -> Option<Seq<char>> {
    if s.len() == 0 {
        None
    } else if s.len() == 1 {
        Some("peer closed mid-frame"@)
    } else {
        let header = length_end(s[1]);
        if s.len() < header {
            Some(
                if s.len() > 2 {
                    "peer closed mid-frame"@
                } else if header == 4 {
                    "len126 eof"@
                } else {
                    "len127 eof"@
                },
            )
        } else if s.len() < payload_start(s) {
            Some(
                if s.len() > header {
                    "peer closed mid-frame"@
                } else {
                    "mask eof"@
                },
            )
        } else {
            Some(
                if s.len() > payload_start(s) {
                    "peer closed mid-frame"@
                } else {
                    "payload eof"@
                },
            )
        }
    }
}

/// What is wrong with a connection that closes after `buf`, which holds less than a frame.
pub fn eof_message(buf: &[u8]) -> (r: Option<&'static str>)
    requires
        frame_at(buf@) is Incomplete,
    ensures
        match cut_short(buf@) {
            Some(m) => r matches Some(t) && t@ == m,
            None => r is None,
        },
{
    let total: usize = buf.len();
    if total == 0 {
        return None;
    }
    if total == 1 {
        return Some("peer closed mid-frame");
    }
    let short: u8 = buf[1] % 128;
    let header: usize = if short == 126 {
        4
    } else if short == 127 {
        10
    } else {
        2
    };
    if total < header {
        return Some(
            if total > 2 {
                "peer closed mid-frame"
            } else if header == 4 {
                "len126 eof"
            } else {
                "len127 eof"
            },
        );
    }
    let start: usize = if buf[1] >= 128 {
        header + 4
    } else {
        header
    };
    if total < start {
        return Some(
            if total > header {
                "peer closed mid-frame"
            } else {
                "mask eof"
            },
        );
    }
    Some(
        if total > start {
            "peer closed mid-frame"
        } else {
            "payload eof"
        },
    )
}

} // verus!
