//! Laws of frames on a connection and of the request that comes before them.

use crate::bytes::{be16, be16_bytes};
use crate::http::{ends_headers, terminator_from};
use crate::text::{contains_text, decimal, hex2_lower};
use crate::text_laws::{lemma_contains_itself, lemma_contains_sum};
use crate::ws::{
    client_frame_bytes, encode_frame, eof_message, frame_at, frame_bytes, frame_head, law_reading_undoes_writing,
    masked, parse_frame, read_frame, upgrade_check, write_frame, FrameRead, Opcode, TapStep, TapTrouble, UpgradeCheck,
    UpgradeTap, WsError, WsFrame, WsRead,
};
use vstd::prelude::*;

verus! {

/// Each opcode has its number, and the number names it again; no other number names one.
pub proof fn law_opcodes_have_numbers(o: Opcode, n: u8, b: u8, r: Option<Opcode>)
    requires
        call_ensures(Opcode::to_byte, (o,), n),
        call_ensures(Opcode::from_byte, (b,), r),
    ensures
        n == (match o {
            Opcode::Continuation => 0,
            Opcode::Text => 1,
            Opcode::Binary => 2,
            Opcode::Close => 8,
            Opcode::Ping => 9,
            Opcode::Pong => 10int,
        }),
        b == n ==> r == Some(o),
        b > 10 || 2 < b < 8 ==> r is None,
{
    if b == n {
        assert(o.code() == b);
    }
}

/// A frame that is sent begins with its final bit and opcode, goes on with the length of its payload, in
/// one byte, three or nine, most significant first and without a mask, and ends with the payload.
pub proof fn law_frame_is_laid_out(opcode: u8, fin: bool, payload: &[u8], r: Vec<u8>)
    requires
        opcode < 16,
        payload@.len() <= usize::MAX,
        call_ensures(write_frame, (opcode, fin, payload), r),
    ensures
        ({
            let len = payload@.len() as int;
            let start = if len < 126 {
                2int
            } else if len < 65_536 {
                4
            } else {
                10
            };
            &&& r@.len() == start + len
            &&& r@.skip(start) == payload@
            &&& r@[0] == opcode + (if fin {
                128int
            } else {
                0
            })
            &&& start == 2 ==> r@[1] == len
            &&& start == 4 ==> r@[1] == 126 && r@[2] * 256 + r@[3] == len
            &&& start == 10 ==> r@[1] == 127 && number_in(r@.subrange(2, 10)) == len
        }),
{
    let len = payload@.len() as int;
    let head = frame_head(fin, opcode, len);
    lemma_be16_bytes(len);
    if len > 0xFFFF {
        lemma_eight_bytes(len);
        assert(head.subrange(2, 10) =~= be16_bytes(len / 0x1_0000_0000_0000) + be16_bytes(
            len / 0x1_0000_0000 % 0x1_0000,
        ) + be16_bytes(len / 0x1_0000 % 0x1_0000) + be16_bytes(len % 0x1_0000));
        assert(r@.subrange(2, 10) =~= head.subrange(2, 10));
    }
    assert(r@.skip(head.len() as int) =~= payload@);
}

/// The number that bytes write, most significant first.
pub open spec fn number_in(bytes: Seq<u8>) -> int
    decreases bytes.len(),
{
    if bytes.len() == 0 {
        0
    } else {
        number_in(bytes.drop_last()) * 256 + bytes.last()
    }
}

proof fn lemma_be16_bytes(n: int)
    ensures
        be16_bytes(n).len() == 2,
        0 <= n < 0x1_0000 ==> be16_bytes(n)[0] * 256 + be16_bytes(n)[1] == n,
{
}

proof fn lemma_two_more(bytes: Seq<u8>, n: int)
    requires
        0 <= n < 0x1_0000,
    ensures
        number_in(bytes + be16_bytes(n)) == number_in(bytes) * 0x1_0000 + n,
{
    lemma_be16_bytes(n);
    let all = bytes + be16_bytes(n);
    let one = all.drop_last();
    assert(all.last() == be16_bytes(n)[1]);
    assert(one.last() == be16_bytes(n)[0]);
    assert(one.drop_last() =~= bytes);
    assert(number_in(all) == number_in(one) * 256 + all.last());
    assert(number_in(one) == number_in(bytes) * 256 + one.last());
}

proof fn lemma_eight_bytes(n: int)
    requires
        0 <= n < 0x1_0000_0000_0000_0000,
    ensures
        number_in(
            be16_bytes(n / 0x1_0000_0000_0000) + be16_bytes(n / 0x1_0000_0000 % 0x1_0000) + be16_bytes(
                n / 0x1_0000 % 0x1_0000,
            ) + be16_bytes(n % 0x1_0000),
        ) == n,
{
    lemma_four_parts(n);
    lemma_four_pairs(n / 0x1_0000_0000_0000, n / 0x1_0000_0000 % 0x1_0000, n / 0x1_0000 % 0x1_0000, n % 0x1_0000);
}

proof fn lemma_four_pairs(x: int, y: int, z: int, w: int)
    requires
        0 <= x < 0x1_0000,
        0 <= y < 0x1_0000,
        0 <= z < 0x1_0000,
        0 <= w < 0x1_0000,
    ensures
        number_in(be16_bytes(x) + be16_bytes(y) + be16_bytes(z) + be16_bytes(w)) == ((x * 0x1_0000 + y) * 0x1_0000
            + z) * 0x1_0000 + w,
{
    let a = be16_bytes(x);
    assert(number_in(Seq::<u8>::empty()) == 0);
    assert(Seq::<u8>::empty() + a =~= a);
    lemma_two_more(Seq::empty(), x);
    lemma_two_more(a, y);
    lemma_two_more(a + be16_bytes(y), z);
    lemma_two_more(a + be16_bytes(y) + be16_bytes(z), w);
}

proof fn lemma_four_parts(n: int)
    requires
        0 <= n < 0x1_0000_0000_0000_0000,
    ensures
        0 <= n / 0x1_0000_0000_0000 < 0x1_0000,
        ((n / 0x1_0000_0000_0000 * 0x1_0000 + n / 0x1_0000_0000 % 0x1_0000) * 0x1_0000 + n / 0x1_0000 % 0x1_0000)
            * 0x1_0000 + n % 0x1_0000 == n,
{
    assert(n / 0x1_0000_0000 / 0x1_0000 == n / 0x1_0000_0000_0000);
    assert(n / 0x1_0000 / 0x1_0000 == n / 0x1_0000_0000);
}

/// Of a frame that has come in part, the rest is waited for, masked or not.
pub proof fn law_cut_frame_is_waited_for(fin: bool, opcode: u8, mask: Seq<u8>, payload: Seq<u8>, count: int)
    requires
        opcode < 16,
        mask.len() == 4,
        payload.len() <= 16_777_216,
        0 <= count,
    ensures
        count < frame_bytes(fin, opcode, payload).len() ==> frame_at(
            frame_bytes(fin, opcode, payload).take(count),
        ) is Incomplete,
        count < client_frame_bytes(fin, opcode, mask, payload).len() ==> frame_at(
            client_frame_bytes(fin, opcode, mask, payload).take(count),
        ) is Incomplete,
{
    let len = payload.len() as int;
    let head = frame_head(fin, opcode, len);
    lemma_be16_bytes(len);
    lemma_be16_bytes(len % 0x1_0000);
    lemma_be16_bytes(len / 0x1_0000 % 0x1_0000);
    let whole = frame_bytes(fin, opcode, payload);
    let sent = client_frame_bytes(fin, opcode, mask, payload);
    assert(masked(payload, mask).len() == payload.len());
    if count < whole.len() {
        assert(forall|i: int| 0 <= i < head.len() && i < count ==> whole.take(count)[i] == head[i]);
    }
    if count < sent.len() {
        assert(forall|i: int| 0 <= i < head.len() && i != 1 && i < count ==> sent.take(count)[i] == head[i]);
        assert(count > 1 ==> sent.take(count)[1] == head[1] + 128);
    }
}

/// A frame may announce sixteen mebibytes of payload. One that announces more is refused with what it
/// announced, before any of its payload has come.
pub proof fn law_large_frames_are_refused(buf: &[u8], r: FrameRead, parsed: Result<WsRead, WsError>)
    requires
        buf@.len() >= 10,
        buf@[1] % 128 == 127,
        call_ensures(read_frame, (buf,), r),
        call_ensures(parse_frame, (buf,), parsed),
    ensures
        ({
            let announced = number_in(buf@.subrange(2, 10));
            &&& r is TooLarge <==> announced > 16_777_216
            &&& r matches FrameRead::TooLarge(n) ==> n == announced
            &&& announced > 16_777_216 ==> (parsed matches Err(WsError::TooLarge(n)) && n == announced)
        }),
{
    let s = buf@;
    let a = be16(s[2], s[3]) as int;
    let b = be16(s[4], s[5]) as int;
    let c = be16(s[6], s[7]) as int;
    let d = be16(s[8], s[9]) as int;
    assert(s.subrange(2, 4) =~= seq![s[2], s[3]]);
    lemma_pair(Seq::empty(), s[2], s[3]);
    lemma_pair(seq![s[2], s[3]], s[4], s[5]);
    lemma_pair(seq![s[2], s[3], s[4], s[5]], s[6], s[7]);
    lemma_pair(seq![s[2], s[3], s[4], s[5], s[6], s[7]], s[8], s[9]);
    assert(Seq::<u8>::empty() + seq![s[2], s[3]] =~= seq![s[2], s[3]]);
    assert(seq![s[2], s[3]] + seq![s[4], s[5]] =~= seq![s[2], s[3], s[4], s[5]]);
    assert(seq![s[2], s[3], s[4], s[5]] + seq![s[6], s[7]] =~= seq![s[2], s[3], s[4], s[5], s[6], s[7]]);
    assert(seq![s[2], s[3], s[4], s[5], s[6], s[7]] + seq![s[8], s[9]] =~= s.subrange(2, 10));
    assert(number_in(s.subrange(2, 10)) == ((a * 0x1_0000 + b) * 0x1_0000 + c) * 0x1_0000 + d);
}

proof fn lemma_pair(bytes: Seq<u8>, high: u8, low: u8)
    ensures
        number_in(bytes + seq![high, low]) == number_in(bytes) * 0x1_0000 + be16(high, low),
        number_in(Seq::<u8>::empty()) == 0,
{
    let all = bytes + seq![high, low];
    assert(all.drop_last().drop_last() =~= bytes);
    assert(number_in(all) == number_in(all.drop_last()) * 256 + low);
    assert(number_in(all.drop_last()) == number_in(bytes) * 256 + high);
}

/// A frame that was encoded is parsed as it was, whatever follows it; one with a reserved opcode is refused
/// with its number.
pub proof fn law_parsing_undoes_encoding(
    frame: &WsFrame,
    bytes: Vec<u8>,
    buf: &[u8],
    rest: Seq<u8>,
    r: Result<WsRead, WsError>,
)
    requires
        frame.payload@.len() <= 16_777_216,
        call_ensures(encode_frame, (frame,), bytes),
        buf@ == bytes@ + rest,
        call_ensures(parse_frame, (buf,), r),
    ensures
        r matches Ok(WsRead::Whole(back, used)) && back@ == frame@ && used == bytes@.len(),
{
    law_reading_undoes_writing(frame.fin, frame.opcode.code(), frame.payload@, rest);
    let c = frame.opcode.code();
    assert(exists|o: Opcode| #[trigger] o.code() == c);
    assert(r matches Ok(WsRead::Whole(back, used)) && back.opcode.code() == c);
}

/// Frames with an opcode that stands for nothing are refused with it.
pub proof fn law_reserved_opcodes_are_refused(
    fin: bool,
    opcode: u8,
    payload: Seq<u8>,
    rest: Seq<u8>,
    buf: &[u8],
    r: Result<WsRead, WsError>,
)
    requires
        2 < opcode < 8 || 10 < opcode < 16,
        payload.len() <= 16_777_216,
        buf@ == frame_bytes(fin, opcode, payload) + rest,
        call_ensures(parse_frame, (buf,), r),
    ensures
        r matches Err(WsError::ReservedOpcode(b)) && b == opcode,
{
    law_reading_undoes_writing(fin, opcode, payload, rest);
}

/// The words for an error tell its number.
pub proof fn law_frame_errors_are_told(e: WsError, r: String)
    requires
        call_ensures(WsError::message, (&e,), r),
    ensures
        e matches WsError::Io(why) ==> r@ == why@,
        e matches WsError::TooLarge(n) ==> contains_text(r@, decimal(n as nat)),
        e matches WsError::ReservedOpcode(b) ==> contains_text(r@, "0x"@ + hex2_lower(b)),
{
    match e {
        WsError::TooLarge(n) => {
            let d = decimal(n as nat);
            lemma_contains_itself(d);
            lemma_contains_sum("frame of "@, d, d);
            lemma_contains_sum("frame of "@ + d, " bytes is too large"@, d);
        },
        WsError::ReservedOpcode(b) => {
            let d = "0x"@ + hex2_lower(b);
            reveal_strlit("reserved opcode 0x");
            reveal_strlit("reserved opcode ");
            reveal_strlit("0x");
            lemma_contains_itself(d);
            lemma_contains_sum("reserved opcode "@, d, d);
            assert("reserved opcode 0x"@ + hex2_lower(b) =~= "reserved opcode "@ + d);
        },
        _ => {},
    }
}

/// A peer may close between frames. Inside one, what had not begun is named: the length, the mask or the
/// payload.
pub proof fn law_cut_is_named(buf: &[u8], r: Option<&'static str>)
    requires
        frame_at(buf@) is Incomplete,
        call_ensures(eof_message, (buf,), r),
    ensures
        ({
            let s = buf@;
            let short = s[1] % 128;
            let header = if short == 126 {
                4int
            } else if short == 127 {
                10
            } else {
                2
            };
            let start = if s[1] >= 128 {
                header + 4
            } else {
                header
            };
            &&& r is None <==> s.len() == 0
            &&& s.len() == 2 && short == 126 ==> r->0@ == "len126 eof"@
            &&& s.len() == 2 && short == 127 ==> r->0@ == "len127 eof"@
            &&& s.len() == header && s[1] >= 128 ==> r->0@ == "mask eof"@
            &&& s.len() >= 2 && s.len() == start ==> r->0@ == "payload eof"@
            &&& s.len() == 1 || 2 < s.len() < header || (header < s.len() && s.len() != start) ==> r->0@
                == "peer closed mid-frame"@
        }),
{
}

/// However a request is cut, the same comes of it: as long as the search goes on without one, two portions
/// are what one portion of both would have been.
#[verifier::spinoff_prover]
#[verifier::rlimit(60)]
pub proof fn law_request_may_come_in_pieces(
    tap: &mut UpgradeTap,
    later: &mut UpgradeTap,
    whole: &mut UpgradeTap,
    a: &[u8],
    b: &[u8],
    both: &[u8],
    first: TapStep,
    second: TapStep,
    once: TapStep,
)
    requires
        old(tap)@.searching,
        call_ensures(UpgradeTap::on_bytes, (tap, a), first),
        first !is Upgraded && final(tap)@.searching,
        *later == *final(tap),
        call_ensures(UpgradeTap::on_bytes, (later, b), second),
        *whole == *old(tap),
        both@ == a@ + b@,
        call_ensures(UpgradeTap::on_bytes, (whole, both), once),
    ensures
        final(later)@ == final(whole)@,
        first is More || first is Trouble,
        second is Upgraded <==> once is Upgraded,
        second matches TapStep::Upgraded { request, response, leftover } ==> once matches TapStep::Upgraded {
            request: q,
            response: s,
            leftover: l,
        } && request@ == q@ && response@ == s@ && leftover@ == l@,
        second is More <==> once is More,
        second is GaveUp <==> once is GaveUp,
{
    assert(old(tap)@.buf + a@ + b@ =~= old(tap)@.buf + both@);
    lemma_search_goes_on(tap, a, first);
    lemma_same_bytes_same_step(later, whole, b, both, second, once);
}

proof fn lemma_search_goes_on(tap: &mut UpgradeTap, a: &[u8], first: TapStep)
    requires
        call_ensures(UpgradeTap::on_bytes, (tap, a), first),
        old(tap)@.searching,
        first !is Upgraded && final(tap)@.searching,
    ensures
        final(tap)@.buf == old(tap)@.buf + a@,
        final(tap)@.one_try == old(tap)@.one_try,
        first is More || first is Trouble,
{
}

#[verifier::spinoff_prover]
#[verifier::rlimit(60)]
proof fn lemma_same_bytes_same_step(
    one: &mut UpgradeTap,
    other: &mut UpgradeTap,
    a: &[u8],
    b: &[u8],
    first: TapStep,
    second: TapStep,
)
    requires
        call_ensures(UpgradeTap::on_bytes, (one, a), first),
        call_ensures(UpgradeTap::on_bytes, (other, b), second),
        old(one)@.searching && old(other)@.searching,
        old(one)@.one_try == old(other)@.one_try,
        old(one)@.buf + a@ == old(other)@.buf + b@,
    ensures
        final(one)@ == final(other)@,
        first is Upgraded <==> second is Upgraded,
        first matches TapStep::Upgraded { request, response, leftover } ==> second matches TapStep::Upgraded {
            request: q,
            response: s,
            leftover: l,
        } && request@ == q@ && response@ == s@ && leftover@ == l@,
        first is More <==> second is More,
        first is GaveUp <==> second is GaveUp,
{
    let check = upgrade_check(old(one)@.buf + a@, old(one)@.one_try);
    match check {
        UpgradeCheck::Ready(end, answer) => {},
        UpgradeCheck::NoKey => {},
        _ => {},
    }
}

/// Nothing that has come is lost at the upgrade: what was the request and what is left for the frames are
/// all of it.
pub proof fn law_upgrade_loses_nothing(tap: &mut UpgradeTap, chunk: &[u8], r: TapStep)
    requires
        call_ensures(UpgradeTap::on_bytes, (tap, chunk), r),
    ensures
        r matches TapStep::Upgraded { request, response, leftover } ==> request@ + leftover@ == old(tap)@.buf + chunk@,
        r matches TapStep::GaveUp { len, trouble } ==> len == old(tap)@.buf.len() + chunk@.len(),
{
    let buf = old(tap)@.buf + chunk@;
    if let UpgradeCheck::Ready(end, answer) = upgrade_check(buf, old(tap)@.one_try) {
        if old(tap)@.searching {
            lemma_terminator_bounds(buf, 0);
            assert(buf.take(end) + buf.skip(end) =~= buf);
        }
    }
}

proof fn lemma_terminator_bounds(s: Seq<u8>, i: int)
    requires
        0 <= i,
        terminator_from(s, i) is Some,
    ensures
        i <= terminator_from(s, i)->0,
        terminator_from(s, i)->0 + 4 <= s.len(),
    decreases s.len() - i,
{
    if !ends_headers(s, i) {
        lemma_terminator_bounds(s, i + 1);
    }
}

/// The search ends once more than eight kibibytes hold no request, or, with one try, at a request without a
/// key; from then on nothing is answered, and the search does not begin again.
pub proof fn law_search_ends(tap: &mut UpgradeTap, chunk: &[u8], r: TapStep)
    requires
        call_ensures(UpgradeTap::on_bytes, (tap, chunk), r),
    ensures
        !old(tap)@.searching ==> r is More && !final(tap)@.searching,
        old(tap)@.searching && r !is Upgraded ==> (r is GaveUp <==> old(tap)@.buf.len() + chunk@.len() > 8192),
        r is GaveUp ==> !final(tap)@.searching,
        r is Trouble ==> (final(tap)@.searching <==> !(old(tap)@.one_try && r == TapStep::Trouble(TapTrouble::NoKey))),
        r is More ==> final(tap)@.searching == old(tap)@.searching,
{
}

/// A connection is given up for silence only before its first byte.
pub proof fn law_silent_peer_is_given_up(tap: &mut UpgradeTap, chunk: &[u8], r: TapStep, before: bool, after: bool)
    requires
        call_ensures(UpgradeTap::is_given_up, (&*old(tap), true), before),
        call_ensures(UpgradeTap::on_bytes, (tap, chunk), r),
        call_ensures(UpgradeTap::is_given_up, (&*final(tap), true), after),
    ensures
        !after,
        before <==> !old(tap)@.first_byte_seen,
{
}

} // verus!
