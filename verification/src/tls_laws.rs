//! Laws of a TLS stream: what of the arriving bytes is used and what is kept, which statuses end it,
//! and how they are told.

use crate::text::{contains_text, hex_upper};
use crate::text_laws::{lemma_contains_itself, lemma_contains_sum};
use crate::tls_schannel::{
    digit_at, handshake_expired, hex8, record_buffer, record_len, sent_len, shutdown_failure,
    DecryptOutcome, Handshake, HandshakeError, HandshakeStep, ReadEnd, TlsBuffers, TlsReadStep,
};
use vstd::prelude::*;

verus! {

/// `kept` is the end of `all`, `count` bytes long, or all of it where that is shorter.
pub open spec fn ends_with_last(all: Seq<u8>, kept: Seq<u8>, count: int) -> bool {
    &&& kept.len() == (if count < all.len() {
        count
    } else {
        all.len() as int
    })
    &&& forall|i: int| 0 <= i < kept.len() ==> #[trigger] kept[i] == all[all.len() - kept.len() + i]
}

/// A handshake that the provider wants to go on keeps the bytes at the end that were not used, and is
/// never again a first call. Where none is left, the peer is read.
pub proof fn law_handshake_goes_on(h: &mut Handshake, extra: usize, r: HandshakeStep)
    requires
        call_ensures(Handshake::on_status, (h, 0x0009_0312u32, extra), r),
    ensures
        ends_with_last(old(h)@.input, final(h)@.input, extra as int),
        !final(h)@.first_call,
        final(h)@.received_any == old(h)@.received_any,
        extra == 0 || old(h)@.input.len() == 0 ==> r is Read,
        extra > 0 && old(h)@.input.len() > 0 ==> r == (HandshakeStep::Call { first_call: false }),
{
}

/// A message that is not whole changes nothing, and the peer is read. What is read then goes behind
/// what was there, and the provider is called as it was before.
pub proof fn law_cut_message_is_completed(
    h: &mut Handshake,
    later: &mut Handshake,
    bytes: &[u8],
    extra: usize,
    r: HandshakeStep,
    next: HandshakeStep,
)
    requires
        call_ensures(Handshake::on_status, (h, 0x8009_0318u32, extra), r),
        *later == *final(h),
        call_ensures(Handshake::on_bytes, (later, bytes), next),
    ensures
        final(h)@ == old(h)@,
        r is Read,
        final(later)@.input == old(h)@.input + bytes@,
        next == (HandshakeStep::Call { first_call: old(h)@.first_call }),
        final(later)@.received_any,
{
}

/// A handshake that has succeeded hands on the bytes at the end that it did not use, and no others.
pub proof fn law_handshake_hands_on_the_rest(h: &mut Handshake, extra: usize, r: HandshakeStep)
    requires
        call_ensures(Handshake::on_status, (h, 0u32, extra), r),
    ensures
        r is Done,
        r matches HandshakeStep::Done { leftover } ==> ends_with_last(old(h)@.input, leftover@, extra as int),
{
}

/// Any other status ends the handshake with an error that tells it.
pub proof fn law_other_statuses_fail(h: &mut Handshake, status: u32, extra: usize, r: HandshakeStep)
    requires
        status != 0 && status != 0x0009_0312 && status != 0x8009_0318,
        call_ensures(Handshake::on_status, (h, status, extra), r),
    ensures
        r is Fail,
        r matches HandshakeStep::Fail(e) ==> e is Failed,
        r matches HandshakeStep::Fail(HandshakeError::Failed(why)) ==> (if status == 0x0009_0317 {
            why@ == "peer closed during TLS handshake"@
        } else {
            contains_text(why@, hex8(status))
        }),
        final(h)@ == old(h)@,
{
    let call = "AcceptSecurityContext"@;
    lemma_contains_itself(hex8(status));
    lemma_contains_sum(call + " failed: 0x"@, hex8(status), hex8(status));
}

/// Eight hexadecimal digits are a number's: each counts sixteen times the one behind it.
pub proof fn law_status_reads_back(status: u32)
    ensures
        hex8(status).len() == 8,
        status == hex_of(hex8(status), 8),
{
    let t = hex8(status);
    let n = status as int;
    assert(hex_of(t, 0) == 0);
    lemma_digit(t, 0, digit_at(status, 0));
    assert(hex_of(t, 1) == n / 0x1000_0000);
    lemma_digit(t, 1, digit_at(status, 1));
    assert(hex_of(t, 2) == n / 0x100_0000);
    lemma_digit(t, 2, digit_at(status, 2));
    assert(hex_of(t, 3) == n / 0x10_0000);
    lemma_digit(t, 3, digit_at(status, 3));
    assert(hex_of(t, 4) == n / 0x1_0000);
    lemma_digit(t, 4, digit_at(status, 4));
    assert(hex_of(t, 5) == n / 0x1000);
    lemma_digit(t, 5, digit_at(status, 5));
    assert(hex_of(t, 6) == n / 0x100);
    lemma_digit(t, 6, digit_at(status, 6));
    assert(hex_of(t, 7) == n / 0x10);
    lemma_digit(t, 7, digit_at(status, 7));
}

/// The number that the first `count` characters write in hexadecimal, in upper case.
pub open spec fn hex_of(text: Seq<char>, count: nat) -> int
    decreases count,
{
    if count == 0 {
        0
    } else {
        hex_of(text, (count - 1) as nat) * 16 + digit_of(text[count - 1])
    }
}

/// The number that a hexadecimal digit in upper case stands for.
pub open spec fn digit_of(c: char) -> int {
    if '0' <= c <= '9' {
        c as int - '0' as int
    } else if 'A' <= c <= 'F' {
        c as int - 'A' as int + 10
    } else {
        -1
    }
}

proof fn lemma_digit(text: Seq<char>, i: int, d: int)
    requires
        0 <= i,
        0 <= d < 16,
        text[i] == hex_upper(d),
    ensures
        hex_of(text, (i + 1) as nat) == hex_of(text, i as nat) * 16 + d,
{
}

/// A peer that closes is worth a word only if it had sent something; every other end of a read is.
pub proof fn law_probe_is_benign(h: &Handshake, end: ReadEnd, e: HandshakeError, benign: bool)
    requires
        call_ensures(Handshake::on_read_end, (h, end), e),
        call_ensures(HandshakeError::is_benign, (&e,), benign),
    ensures
        benign <==> end is Closed && !h@.received_any,
        end matches ReadEnd::Failed(text) ==> (e matches HandshakeError::Failed(why) && why@ == text@),
        end is TimedOut ==> (e matches HandshakeError::Failed(why) && why@ == "TLS handshake timed out"@),
{
}

/// A handshake may take half a minute, and no longer.
pub proof fn law_handshake_expires(elapsed_secs: u64, later: u64, r: bool, s: bool)
    requires
        call_ensures(handshake_expired, (elapsed_secs,), r),
        call_ensures(handshake_expired, (later,), s),
        elapsed_secs <= later,
    ensures
        r ==> s,
        elapsed_secs < 30 ==> !r,
        elapsed_secs >= 30 ==> r,
{
}

/// What is plain is given first, in order, and nothing of it is lost.
pub proof fn law_plain_bytes_are_given_first(b: &mut TlsBuffers, max: usize, r: TlsReadStep)
    requires
        max > 0,
        call_ensures(TlsBuffers::next_step, (b, max), r),
    ensures
        r is Give <==> old(b)@.plain.len() > 0,
        r matches TlsReadStep::Give(bytes) ==> bytes@ + final(b)@.plain == old(b)@.plain,
        r matches TlsReadStep::Give(bytes) ==> 0 < bytes@.len() <= max,
        r matches TlsReadStep::Give(bytes) ==> bytes@.len() == max || final(b)@.plain.len() == 0,
        final(b)@.cipher == old(b)@.cipher,
        final(b)@.starved == old(b)@.starved,
        r is Decrypt ==> old(b)@.cipher.len() > 0,
        old(b)@.plain.len() == 0 && old(b)@.starved ==> r is Read,
        old(b)@.plain.len() == 0 && old(b)@.cipher.len() == 0 ==> r is Read,
        old(b)@.plain.len() == 0 && old(b)@.cipher.len() > 0 && !old(b)@.starved ==> r is Decrypt,
{
}

/// A record that was decrypted leaves its plain bytes, and of the encrypted ones those at the end that it
/// did not use.
pub proof fn law_record_is_decrypted(b: &mut TlsBuffers, plain: &[u8], extra: usize, r: DecryptOutcome)
    requires
        call_ensures(TlsBuffers::on_decrypted, (b, 0u32, plain, extra), r),
    ensures
        r is Decrypted,
        final(b)@.plain == plain@,
        ends_with_last(old(b)@.cipher, final(b)@.cipher, extra as int),
        !final(b)@.starved,
{
}

/// A record that is not whole has the peer read, and is tried again with what was read behind it.
pub proof fn law_cut_record_is_completed(
    b: &mut TlsBuffers,
    waiting: &mut TlsBuffers,
    later: &mut TlsBuffers,
    tried: &mut TlsBuffers,
    plain: &[u8],
    bytes: &[u8],
    extra: usize,
    max: usize,
    r: DecryptOutcome,
    first: TlsReadStep,
    second: TlsReadStep,
)
    requires
        max > 0,
        old(b)@.plain.len() == 0,
        bytes@.len() > 0,
        call_ensures(TlsBuffers::on_decrypted, (b, 0x8009_0318u32, plain, extra), r),
        *waiting == *final(b),
        call_ensures(TlsBuffers::next_step, (waiting, max), first),
        *later == *final(waiting),
        call_ensures(TlsBuffers::on_bytes, (later, bytes), ()),
        *tried == *final(later),
        call_ensures(TlsBuffers::next_step, (tried, max), second),
    ensures
        r is NeedMore,
        first is Read,
        second is Decrypt,
        final(tried)@.cipher == old(b)@.cipher + bytes@,
{
}

/// A stream that the peer has closed is at its end; any other status is told. Neither touches what is held.
pub proof fn law_decryption_ends(b: &mut TlsBuffers, status: u32, plain: &[u8], extra: usize, r: DecryptOutcome)
    requires
        status != 0 && status != 0x8009_0318,
        call_ensures(TlsBuffers::on_decrypted, (b, status, plain, extra), r),
    ensures
        r is Eof <==> status == 0x0009_0317,
        r !is Eof ==> r is Failed,
        r matches DecryptOutcome::Failed(why) ==> contains_text(why@, hex8(status)),
        final(b)@ == old(b)@,
{
    lemma_contains_itself(hex8(status));
    lemma_contains_sum("DecryptMessage"@ + " failed: 0x"@, hex8(status), hex8(status));
}

/// A record holds as much as it can and no more, and lies between room for its header and its trailer.
pub proof fn law_record_holds_what_fits(
    plain: &[u8],
    len: usize,
    max: usize,
    header: usize,
    trailer: usize,
    n: usize,
    out: Vec<u8>,
)
    requires
        call_ensures(record_len, (len, max), n),
        call_ensures(record_buffer, (header, plain, trailer), out),
    ensures
        n <= len && n <= max,
        n == len || n == max,
        out@.len() == header + plain@.len() + trailer,
        out@.subrange(header as int, header + plain@.len()) == plain@,
        forall|i: int| 0 <= i < header || header + plain@.len() <= i < out@.len() ==> #[trigger] out@[i] == 0,
{
    assert(out@.subrange(header as int, header + plain@.len()) =~= plain@);
}

/// All three parts of a record are sent, unless they do not fit in it.
pub proof fn law_whole_record_is_sent(len: usize, header: u32, data: u32, trailer: u32, r: Option<usize>)
    requires
        call_ensures(sent_len, (len, header, data, trailer), r),
    ensures
        r is Some <==> header + data + trailer <= len,
        r is Some ==> r->0 == header + data + trailer,
{
}

/// Closing a stream fails with the first call that failed; that the stream has ended is no failure of the
/// second.
pub proof fn law_shutdown_is_judged(applied: u32, accepted: u32, r: Option<String>)
    requires
        call_ensures(shutdown_failure, (applied, accepted), r),
    ensures
        r is None <==> applied == 0 && (accepted == 0 || accepted == 0x0009_0317),
        applied != 0 ==> r is Some && contains_text(r->0@, hex8(applied)) && contains_text(
            r->0@,
            "ApplyControlToken"@,
        ),
        applied == 0 && r is Some ==> contains_text(r->0@, hex8(accepted)) && contains_text(
            r->0@,
            "AcceptSecurityContext"@,
        ),
{
    reveal_strlit("ApplyControlToken");
    reveal_strlit("ApplyControlToken(shutdown)");
    reveal_strlit("AcceptSecurityContext");
    reveal_strlit("AcceptSecurityContext(shutdown)");
    reveal_strlit("(shutdown)");
    assert("ApplyControlToken(shutdown)"@ =~= "ApplyControlToken"@ + "(shutdown)"@);
    assert("AcceptSecurityContext(shutdown)"@ =~= "AcceptSecurityContext"@ + "(shutdown)"@);
    lemma_failure_tells("ApplyControlToken"@, applied);
    lemma_failure_tells("AcceptSecurityContext"@, accepted);
}

proof fn lemma_failure_tells(call: Seq<char>, status: u32)
    ensures
        contains_text(call + "(shutdown)"@ + " failed: 0x"@ + hex8(status), call),
        contains_text(call + "(shutdown)"@ + " failed: 0x"@ + hex8(status), hex8(status)),
{
    lemma_contains_itself(call);
    lemma_contains_itself(hex8(status));
    lemma_contains_sum(call, "(shutdown)"@, call);
    lemma_contains_sum(call + "(shutdown)"@, " failed: 0x"@, call);
    lemma_contains_sum(call + "(shutdown)"@ + " failed: 0x"@, hex8(status), call);
    lemma_contains_sum(call + "(shutdown)"@ + " failed: 0x"@, hex8(status), hex8(status));
}

} // verus!
