//! The bookkeeping round a TLS provider that works on buffers: which bytes go into the next call of
//! the handshake, what is left over, and how plain bytes are handed out. The provider's calls and the
//! socket are the caller's.

use crate::bytes::{append_bytes, copy_range};
use crate::text::hex_upper;
use vstd::prelude::*;

verus! {

/// A call went well.
pub const SEC_E_OK: u32 = 0;

/// The handshake goes on.
pub const SEC_I_CONTINUE_NEEDED: u32 = 0x0009_0312;

/// The peer has closed the stream.
pub const SEC_I_CONTEXT_EXPIRED: u32 = 0x0009_0317;

/// There is not a whole record yet.
pub const SEC_E_INCOMPLETE_MESSAGE: u32 = 0x8009_0318;

/// How long a handshake may take.
pub const HANDSHAKE_DEADLINE_SECS: u64 = 30;

/// Eight hexadecimal digits.
pub open spec fn hex8(n: u32) -> Seq<char> {
    Seq::new(8, |i: int| hex_upper(digit_at(n, i)))
}

/// The hexadecimal digit at a place, from the front.
pub open spec fn digit_at(n: u32, i: int) -> int {
    if i == 0 {
        n as int / 0x1000_0000 % 16
    } else if i == 1 {
        n as int / 0x100_0000 % 16
    } else if i == 2 {
        n as int / 0x10_0000 % 16
    } else if i == 3 {
        n as int / 0x1_0000 % 16
    } else if i == 4 {
        n as int / 0x1000 % 16
    } else if i == 5 {
        n as int / 0x100 % 16
    } else if i == 6 {
        n as int / 0x10 % 16
    } else {
        n as int % 16
    }
}

fn hex_digit(d: u32) -> (r: char)
    requires
        d < 16,
    ensures
        r == hex_upper(d as int),
{
    if d < 10 {
        (0x30 + d as u8) as char
    } else {
        (0x37 + d as u8) as char
    }
}

fn push_hex8(out: &mut String, n: u32)
    ensures
        final(out)@ == old(out)@ + hex8(n),
{
    out.push(hex_digit(n / 0x1000_0000 % 16));
    out.push(hex_digit(n / 0x100_0000 % 16));
    out.push(hex_digit(n / 0x10_0000 % 16));
    out.push(hex_digit(n / 0x1_0000 % 16));
    out.push(hex_digit(n / 0x1000 % 16));
    out.push(hex_digit(n / 0x100 % 16));
    out.push(hex_digit(n / 0x10 % 16));
    out.push(hex_digit(n % 16));
    assert(out@ =~= old(out)@ + hex8(n));
}

/// How a failed call is told.
pub open spec fn failure_text(call: Seq<char>, status: u32) -> Seq<char> {
    call + " failed: 0x"@ + hex8(status)
}

/// Tells of a failed call.
pub fn call_failure(call: &str, status: u32) -> (r: String)
    ensures
        r@ == failure_text(call@, status),
{
    let mut out = call.to_owned();
    out.append(" failed: 0x");
    push_hex8(&mut out, status);
    out
}

/// Why a handshake did not succeed.
#[derive(Debug, Clone, PartialEq, Eq)]
pub enum HandshakeError {
    /// The peer closed without having sent a byte: it only looked whether somebody is there.
    PeerClosedBeforeData,
    /// Anything else, in words.
    Failed(String),
}

/// How an error is told.
pub open spec fn error_text(e: HandshakeError) -> Seq<char> {
    match e {
        HandshakeError::PeerClosedBeforeData => "peer closed before sending any bytes (TCP liveness probe)"@,
        HandshakeError::Failed(why) => "TLS handshake failed: "@ + why@,
    }
}

impl HandshakeError {
    /// The error in words.
    pub fn message(&self) -> (r: String)
        ensures
            r@ == error_text(*self),
    {
        match self {
            HandshakeError::PeerClosedBeforeData => {
                "peer closed before sending any bytes (TCP liveness probe)".to_owned()
            },
            HandshakeError::Failed(why) => {
                let mut out = "TLS handshake failed: ".to_owned();
                out.append(why.as_str());
                out
            },
        }
    }

    /// Whether nobody needs to be told.
    pub fn is_benign(&self) -> (r: bool)
        ensures
            r == (self is PeerClosedBeforeData),
    {
        match self {
            HandshakeError::PeerClosedBeforeData => true,
            HandshakeError::Failed(_) => false,
        }
    }
}

/// A handshake.
pub struct Handshake {
    input: Vec<u8>,
    first_call: bool,
    received_any: bool,
}

/// What a handshake stands for.
#[verifier::ext_equal]
pub struct HandshakeView {
    /// What has arrived and has not been used.
    pub input: Seq<u8>,
    /// Whether the provider has no context yet.
    pub first_call: bool,
    /// Whether anything has ever arrived.
    pub received_any: bool,
}

impl View for Handshake {
    type V = HandshakeView;

    closed spec fn view(&self) -> HandshakeView {
        HandshakeView { input: self.input@, first_call: self.first_call, received_any: self.received_any }
    }
}

/// What to do in a handshake next.
#[derive(Debug, Clone, PartialEq, Eq)]
pub enum HandshakeStep {
    /// Read from the peer.
    Read,
    /// Call the provider with what has arrived; with the context unless it is the first call.
    Call { first_call: bool },
    /// It has succeeded, and this much has arrived beyond it.
    Done { leftover: Vec<u8> },
    /// It has failed.
    Fail(HandshakeError),
}

/// How a read from the peer ended.
pub enum ReadEnd {
    /// The peer has closed.
    Closed,
    /// Nothing came in time.
    TimedOut,
    /// It failed, in words.
    Failed(String),
}

/// The last `extra` bytes, or all if there are not as many.
pub open spec fn left_over(input: Seq<u8>, extra: int) -> Seq<u8> {
    if extra >= input.len() {
        input
    } else {
        input.skip(input.len() - extra)
    }
}

fn keep_left_over(input: &Vec<u8>, extra: usize) -> (r: Vec<u8>)
    ensures
        r@ == left_over(input@, extra as int),
{
    let len: usize = input.len();
    let from: usize = if extra >= len {
        0
    } else {
        len - extra
    };
    let r = copy_range(input.as_slice(), from, len);
    assert(r@ =~= left_over(input@, extra as int));
    r
}

/// The handshake after the provider was called, if it goes on.
pub open spec fn after_call(h: HandshakeView, status: u32, extra: int) -> HandshakeView {
    if status == SEC_I_CONTINUE_NEEDED {
        HandshakeView { input: left_over(h.input, extra), first_call: false, ..h }
    } else {
        h
    }
}

impl Handshake {
    /// A handshake in which nothing has happened. The first thing to do is to read.
    pub fn new() -> (r: Handshake)
        ensures
            r@ == (HandshakeView { input: Seq::empty(), first_call: true, received_any: false }),
    {
        Handshake { input: Vec::new(), first_call: true, received_any: false }
    }

    /// What has arrived and has not been used.
    pub fn input(&self) -> (r: &[u8])
        ensures
            r@ == self@.input,
    {
        self.input.as_slice()
    }

    /// Takes what was read; the provider is called next.
    pub fn on_bytes(&mut self, bytes: &[u8]) -> (r: HandshakeStep)
        ensures
            final(self)@ == (HandshakeView {
                input: old(self)@.input + bytes@,
                received_any: true,
                ..old(self)@
            }),
            r == (HandshakeStep::Call { first_call: old(self)@.first_call }),
    {
        append_bytes(&mut self.input, bytes);
        self.received_any = true;
        HandshakeStep::Call { first_call: self.first_call }
    }

    /// Decides what the end of a read means: a peer that closes before it has sent anything only
    /// looked.
    pub fn on_read_end(&self, end: ReadEnd) -> (r: HandshakeError)
        ensures
            match end {
                ReadEnd::Closed => if self@.received_any {
                    r matches HandshakeError::Failed(why) && why@ == "peer closed during TLS handshake"@
                } else {
                    r is PeerClosedBeforeData
                },
                ReadEnd::TimedOut => r matches HandshakeError::Failed(why) && why@ == "TLS handshake timed out"@,
                ReadEnd::Failed(text) => r matches HandshakeError::Failed(why) && why@ == text@,
            },
    {
        match end {
            ReadEnd::Closed => if self.received_any {
                HandshakeError::Failed("peer closed during TLS handshake".to_owned())
            } else {
                HandshakeError::PeerClosedBeforeData
            },
            ReadEnd::TimedOut => HandshakeError::Failed("TLS handshake timed out".to_owned()),
            ReadEnd::Failed(text) => HandshakeError::Failed(text),
        }
    }

    /// Takes what the provider said: its status, and how many bytes at the end of the input it did
    /// not use. Only a call that is answered makes its context count.
    pub fn on_status(&mut self, status: u32, extra: usize) -> (r: HandshakeStep)
        ensures
            final(self)@ == after_call(old(self)@, status, extra as int),
            if status == SEC_E_OK {
                r matches HandshakeStep::Done { leftover } && leftover@ == if extra > 0 {
                    left_over(old(self)@.input, extra as int)
                } else {
                    Seq::empty()
                }
            } else if status == SEC_I_CONTINUE_NEEDED {
                if final(self)@.input.len() == 0 {
                    r is Read
                } else {
                    r == (HandshakeStep::Call { first_call: false })
                }
            } else if status == SEC_E_INCOMPLETE_MESSAGE {
                r is Read
            } else if status == SEC_I_CONTEXT_EXPIRED {
                r matches HandshakeStep::Fail(HandshakeError::Failed(why)) && why@
                    == "peer closed during TLS handshake"@
            } else {
                r matches HandshakeStep::Fail(HandshakeError::Failed(why)) && why@ == failure_text(
                    "AcceptSecurityContext"@,
                    status,
                )
            },
    {
        if status == SEC_E_OK {
            let leftover = if extra > 0 {
                keep_left_over(&self.input, extra)
            } else {
                Vec::new()
            };
            assert(extra == 0 ==> leftover@ =~= Seq::empty());
            HandshakeStep::Done { leftover }
        } else if status == SEC_I_CONTINUE_NEEDED {
            self.first_call = false;
            self.input = keep_left_over(&self.input, extra);
            if self.input.len() == 0 {
                HandshakeStep::Read
            } else {
                HandshakeStep::Call { first_call: false }
            }
        } else if status == SEC_E_INCOMPLETE_MESSAGE {
            HandshakeStep::Read
        } else if status == SEC_I_CONTEXT_EXPIRED {
            HandshakeStep::Fail(HandshakeError::Failed("peer closed during TLS handshake".to_owned()))
        } else {
            HandshakeStep::Fail(HandshakeError::Failed(call_failure("AcceptSecurityContext", status)))
        }
    }
}

/// Decides whether a handshake has taken too long.
pub fn handshake_expired(elapsed_secs: u64) -> (r: bool)
    ensures
        r == (elapsed_secs >= HANDSHAKE_DEADLINE_SECS),
{
    elapsed_secs >= HANDSHAKE_DEADLINE_SECS
}

/// How a record was decrypted.
#[derive(Debug, Clone, PartialEq, Eq)]
pub enum DecryptOutcome {
    /// Its plain bytes can be taken.
    Decrypted,
    /// There is not a whole record yet.
    NeedMore,
    /// The peer has closed the stream.
    Eof,
    /// The provider failed, in words.
    Failed(String),
}

/// What to do to read plain bytes.
#[derive(Debug, Clone, PartialEq, Eq)]
pub enum TlsReadStep {
    /// These are they.
    Give(Vec<u8>),
    /// Decrypt what has arrived.
    Decrypt,
    /// Read from the peer.
    Read,
}

/// The buffers of a TLS stream.
pub struct TlsBuffers {
    plain: Vec<u8>,
    cipher: Vec<u8>,
    starved: bool,
}

/// What the buffers of a TLS stream stand for.
#[verifier::ext_equal]
pub struct BuffersView {
    /// Plain bytes that nobody has taken.
    pub plain: Seq<u8>,
    /// Encrypted bytes that have not been used.
    pub cipher: Seq<u8>,
    /// Whether those are known to be less than a record.
    pub starved: bool,
}

impl View for TlsBuffers {
    type V = BuffersView;

    closed spec fn view(&self) -> BuffersView {
        BuffersView { plain: self.plain@, cipher: self.cipher@, starved: self.starved }
    }
}

/// The smaller of two numbers.
pub open spec fn smaller(a: int, b: int) -> int {
    if a < b {
        a
    } else {
        b
    }
}

impl TlsBuffers {
    /// The buffers after a handshake, with what has arrived beyond it.
    pub fn new(leftover: Vec<u8>) -> (r: TlsBuffers)
        ensures
            r@ == (BuffersView { plain: Seq::empty(), cipher: leftover@, starved: false }),
    {
        TlsBuffers { plain: Vec::new(), cipher: leftover, starved: false }
    }

    /// What has to be decrypted.
    pub fn cipher(&self) -> (r: &[u8])
        ensures
            r@ == self@.cipher,
    {
        self.cipher.as_slice()
    }

    /// Decides how to get up to `max` plain bytes. What is there is given first.
    pub fn next_step(&mut self, max: usize) -> (r: TlsReadStep)
        ensures
            if max == 0 {
                &&& r matches TlsReadStep::Give(bytes) && bytes@.len() == 0
                &&& final(self)@ == old(self)@
            } else if old(self)@.plain.len() > 0 {
                let n = smaller(max as int, old(self)@.plain.len() as int);
                &&& r matches TlsReadStep::Give(bytes) && bytes@ == old(self)@.plain.take(n)
                &&& final(self)@ == (BuffersView { plain: old(self)@.plain.skip(n), ..old(self)@ })
            } else if old(self)@.cipher.len() > 0 && !old(self)@.starved {
                r is Decrypt && final(self)@ == old(self)@
            } else {
                r is Read && final(self)@ == old(self)@
            },
    {
        if max == 0 {
            return TlsReadStep::Give(Vec::new());
        }
        let held: usize = self.plain.len();
        if held > 0 {
            let n: usize = if max < held {
                max
            } else {
                held
            };
            let bytes = copy_range(self.plain.as_slice(), 0, n);
            let rest = copy_range(self.plain.as_slice(), n, held);
            assert(bytes@ =~= self.plain@.take(n as int));
            assert(rest@ =~= self.plain@.skip(n as int));
            self.plain = rest;
            return TlsReadStep::Give(bytes);
        }
        if self.cipher.len() > 0 && !self.starved {
            TlsReadStep::Decrypt
        } else {
            TlsReadStep::Read
        }
    }

    /// Takes what was read from the peer.
    pub fn on_bytes(&mut self, bytes: &[u8])
        ensures
            final(self)@ == (BuffersView {
                cipher: old(self)@.cipher + bytes@,
                starved: false,
                ..old(self)@
            }),
    {
        append_bytes(&mut self.cipher, bytes);
        self.starved = false;
    }

    /// Takes what the provider said: its status, the plain bytes of the record, and how many bytes
    /// at the end it did not use.
    pub fn on_decrypted(&mut self, status: u32, plain: &[u8], extra: usize) -> (r: DecryptOutcome)
        ensures
            if status == SEC_E_OK {
                &&& r is Decrypted
                &&& final(self)@ == (BuffersView {
                    plain: plain@,
                    cipher: if extra > 0 {
                        left_over(old(self)@.cipher, extra as int)
                    } else {
                        Seq::empty()
                    },
                    starved: false,
                })
            } else if status == SEC_E_INCOMPLETE_MESSAGE {
                r is NeedMore && final(self)@ == (BuffersView { starved: true, ..old(self)@ })
            } else if status == SEC_I_CONTEXT_EXPIRED {
                r is Eof && final(self)@ == old(self)@
            } else {
                &&& r matches DecryptOutcome::Failed(why) && why@ == failure_text("DecryptMessage"@, status)
                &&& final(self)@ == old(self)@
            },
    {
        if status == SEC_E_OK {
            let mut taken: Vec<u8> = Vec::new();
            append_bytes(&mut taken, plain);
            assert(taken@ =~= plain@);
            self.plain = taken;
            self.cipher = if extra > 0 {
                keep_left_over(&self.cipher, extra)
            } else {
                Vec::new()
            };
            assert(extra == 0 ==> self.cipher@ =~= Seq::empty());
            self.starved = false;
            DecryptOutcome::Decrypted
        } else if status == SEC_E_INCOMPLETE_MESSAGE {
            self.starved = true;
            DecryptOutcome::NeedMore
        } else if status == SEC_I_CONTEXT_EXPIRED {
            DecryptOutcome::Eof
        } else {
            DecryptOutcome::Failed(call_failure("DecryptMessage", status))
        }
    }
}

/// Bytes of zero.
pub open spec fn blank(n: int) -> Seq<u8> {
    Seq::new(n as nat, |i: int| 0u8)
}

fn push_blank(out: &mut Vec<u8>, n: usize)
    ensures
        final(out)@ == old(out)@ + blank(n as int),
{
    let mut i: usize = 0;
    assert(out@ =~= old(out)@ + blank(0));
    while i < n
        invariant
            i <= n,
            out@ == old(out)@ + blank(i as int),
        decreases n - i,
    {
        out.push(0);
        i += 1;
        assert(out@ =~= old(out)@ + blank(i as int));
    }
}

/// How many bytes of `len` go into the next record, when one holds `max`.
pub fn record_len(len: usize, max: usize) -> (r: usize)
    ensures
        r == smaller(len as int, max as int),
{
    if len < max {
        len
    } else {
        max
    }
}

/// Lays out a record: room for its header, the plain bytes, and room for its trailer.
pub fn record_buffer(header: usize, plain: &[u8], trailer: usize) -> (r: Vec<u8>)
    ensures
        r@ == blank(header as int) + plain@ + blank(trailer as int),
{
    let mut out: Vec<u8> = Vec::new();
    push_blank(&mut out, header);
    append_bytes(&mut out, plain);
    push_blank(&mut out, trailer);
    assert(out@ =~= blank(header as int) + plain@ + blank(trailer as int));
    out
}

/// How much of a record is sent, from what the provider made of its three parts; nothing where that
/// is more than the record.
pub fn sent_len(record_len: usize, header: u32, data: u32, trailer: u32) -> (r: Option<usize>)
    ensures
        match r {
            Some(n) => n == header + data + trailer && n <= record_len,
            None => header + data + trailer > record_len,
        },
{
    let total: u64 = header as u64 + data as u64 + trailer as u64;
    if total > record_len as u64 {
        None
    } else {
        Some(total as usize)
    }
}

/// Judges the two calls that close a stream; nothing is wrong unless one of them failed.
pub fn shutdown_failure(applied: u32, accepted: u32) -> (r: Option<String>)
    ensures
        if applied != SEC_E_OK {
            r matches Some(why) && why@ == failure_text("ApplyControlToken(shutdown)"@, applied)
        } else if accepted != SEC_E_OK && accepted != SEC_I_CONTEXT_EXPIRED {
            r matches Some(why) && why@ == failure_text("AcceptSecurityContext(shutdown)"@, accepted)
        } else {
            r is None
        },
{
    if applied != SEC_E_OK {
        Some(call_failure("ApplyControlToken(shutdown)", applied))
    } else if accepted != SEC_E_OK && accepted != SEC_I_CONTEXT_EXPIRED {
        Some(call_failure("AcceptSecurityContext(shutdown)", accepted))
    } else {
        None
    }
}

/// However plain bytes are taken, in large or small portions, they come in order and none is lost: two
/// portions are what one portion of both would have been.
pub proof fn law_portions_add_up(plain: Seq<u8>, first: int, second: int)
    requires
        0 < first,
        0 < second,
    ensures
        ({
            let n = smaller(first, plain.len() as int);
            let rest = plain.skip(n);
            let m = smaller(second, rest.len() as int);
            let whole = smaller(first + second, plain.len() as int);
            &&& plain.take(n) + rest.take(m) == plain.take(whole)
            &&& rest.skip(m) == plain.skip(whole)
        }),
{
    let n = smaller(first, plain.len() as int);
    let rest = plain.skip(n);
    let m = smaller(second, rest.len() as int);
    let whole = smaller(first + second, plain.len() as int);
    assert(plain.take(n) + rest.take(m) =~= plain.take(whole));
    assert(rest.skip(m) =~= plain.skip(whole));
}

/// What a record did not use is kept whole: what was used and what is left are the input.
pub proof fn law_nothing_is_dropped(input: Seq<u8>, extra: int)
    requires
        0 <= extra,
    ensures
        input == input.take(input.len() - left_over(input, extra).len()) + left_over(input, extra),
{
    assert(input =~= input.take(input.len() - left_over(input, extra).len()) + left_over(input, extra));
}

/// As long as the provider has not answered, it is called without a context: reading more does not
/// change that.
pub proof fn law_unanswered_calls_stay_first(h: HandshakeView, extra: int)
    ensures
        after_call(h, SEC_E_INCOMPLETE_MESSAGE, extra) == h,
        !after_call(h, SEC_I_CONTINUE_NEEDED, extra).first_call,
{
}

} // verus!
