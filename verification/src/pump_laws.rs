//! Laws of the delivery of frames: what a client is sent of its queue, and the numbers that a session
//! starts from.

use crate::rtp::RtpPacketizer;
use crate::rtsp_pump::{
    mixed, paced_packets, packet_bytes, pump_frame_into, pump_step, seq_from, splitmix64, ssrc_from, wrapped_product,
    PacedPacket, PumpAction, VecSink, SPLITMIX_INCREMENT, SPLITMIX_MULTIPLIER,
};
use crate::stream_state::{channel_of, ClientId, Frame, StreamState};
use vstd::prelude::*;

verus! {

/// Pauses change nothing in what is sent: the packets of a frame are the same with them and without, and
/// so is the state that the next frame starts from.
pub proof fn law_pauses_change_no_packet(
    paced: &mut RtpPacketizer,
    plain: &mut RtpPacketizer,
    sink: &mut VecSink,
    frame: &Frame,
    r: Vec<PacedPacket>,
    sent: Result<(), std::io::Error>,
)
    requires
        old(paced)@ == old(plain)@,
        call_ensures(paced_packets, (paced, frame), r),
        call_ensures(pump_frame_into::<VecSink>, (sink, plain, frame), sent),
    ensures
        sent is Ok,
        final(sink)@ == old(sink)@ + packet_bytes(r@),
        final(paced)@ == final(plain)@,
{
}

/// A client is sent its frames one by one, in the order in which they wait, and each is taken out of its
/// queue only; while it has none it waits, and once it is let go it stops.
pub proof fn law_queue_is_sent_in_order(
    hub: &mut StreamState,
    packetizer: &mut RtpPacketizer,
    id: ClientId,
    i: int,
    r: PumpAction,
)
    requires
        channel_of(old(hub)@.channels, id) == Some(i),
        0 <= i < old(hub)@.channels.len(),
        call_ensures(pump_step, (hub, packetizer, id), r),
    ensures
        ({
            let c = old(hub)@.channels[i];
            let d = final(hub)@.channels[i];
            &&& c.queue.len() > 0 ==> r is Send && seq![c.queue[0]] + d.queue == c.queue
            &&& c.queue.len() == 0 ==> final(hub)@ == old(hub)@ && final(packetizer)@ == old(packetizer)@
            &&& c.queue.len() == 0 && c.registered ==> r is Wait
            &&& c.queue.len() == 0 && !c.registered ==> r is Stop
            &&& d.registered == c.registered
            &&& forall|j: int|
                0 <= j < old(hub)@.channels.len() && j != i ==> #[trigger] final(hub)@.channels[j]
                    == old(hub)@.channels[j]
            &&& final(hub)@.channels.len() == old(hub)@.channels.len()
        }),
{
    let c = old(hub)@.channels[i];
    if c.queue.len() > 0 {
        assert(seq![c.queue[0]] + c.queue.skip(1) =~= c.queue);
    }
}

/// The first numbers of a session are two parts of what its seed mixes to: the upper half for its source,
/// and the sixteen bits behind it for the first packet.
pub proof fn law_first_numbers_are_parts_of_the_mix(seed: u64, z: u64, ssrc: u32, seq: u16)
    requires
        call_ensures(splitmix64, (seed,), z),
        call_ensures(ssrc_from, (seed,), ssrc),
        call_ensures(seq_from, (seed,), seq),
    ensures
        0 <= z - ssrc * 0x1_0000_0000 - seq * 0x1_0000 < 0x1_0000,
{
}

/// Mixing loses nothing: different numbers stay different.
pub proof fn law_mixing_loses_nothing(a: u64, b: u64, r: u64, s: u64)
    requires
        call_ensures(splitmix64, (a,), r),
        call_ensures(splitmix64, (b,), s),
    ensures
        r == s ==> a == b,
{
    let m: int = 0x1_0000_0000_0000_0000;
    let a1 = ((a + SPLITMIX_INCREMENT) % m) as u64;
    let b1 = ((b + SPLITMIX_INCREMENT) % m) as u64;
    let a2 = wrapped_product(a1 ^ (a1 >> 30), SPLITMIX_MULTIPLIER);
    let b2 = wrapped_product(b1 ^ (b1 >> 30), SPLITMIX_MULTIPLIER);
    let a3 = wrapped_product(a2 ^ (a2 >> 27), SPLITMIX_MULTIPLIER);
    let b3 = wrapped_product(b2 ^ (b2 >> 27), SPLITMIX_MULTIPLIER);
    assert(r == mixed(a) && s == mixed(b));
    if r == s {
        lemma_shifted_31(a3, b3);
        lemma_multiplier_cancels(a2 ^ (a2 >> 27));
        lemma_multiplier_cancels(b2 ^ (b2 >> 27));
        lemma_shifted_27(a2, b2);
        lemma_multiplier_cancels(a1 ^ (a1 >> 30));
        lemma_multiplier_cancels(b1 ^ (b1 >> 30));
        lemma_shifted_30(a1, b1);
    }
}

proof fn lemma_shifted_31(a: u64, b: u64)
    by (bit_vector)
    ensures
        a ^ (a >> 31) == b ^ (b >> 31) ==> a == b,
{
}

proof fn lemma_shifted_27(a: u64, b: u64)
    by (bit_vector)
    ensures
        a ^ (a >> 27) == b ^ (b >> 27) ==> a == b,
{
}

proof fn lemma_shifted_30(a: u64, b: u64)
    by (bit_vector)
    ensures
        a ^ (a >> 30) == b ^ (b >> 30) ==> a == b,
{
}

/// Multiplying by the multiplier can be undone.
proof fn lemma_multiplier_cancels(a: u64)
    ensures
        (wrapped_product(a, SPLITMIX_MULTIPLIER) as int * 0xC097_EF87_329E_28A5) % 0x1_0000_0000_0000_0000 == a,
{
    let m: int = 0x1_0000_0000_0000_0000;
    let g: int = 6_364_136_223_846_793_005;
    let h: int = 0xC097_EF87_329E_28A5;
    let x = a as int;
    vstd::arithmetic::div_mod::lemma_mul_mod_noop_left(x * g, h, m);
    assert((x * g) * h == x * (g * h)) by (nonlinear_arith);
    assert((g * h) % m == 1) by (nonlinear_arith)
        requires
            g == 6_364_136_223_846_793_005,
            h == 0xC097_EF87_329E_28A5,
            m == 0x1_0000_0000_0000_0000,
    ;
    vstd::arithmetic::div_mod::lemma_mul_mod_noop_right(x, g * h, m);
    vstd::arithmetic::div_mod::lemma_small_mod(a as nat, m as nat);
}

} // verus!
