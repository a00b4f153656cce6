//! Delivery of frames as RTP: packets into a sink, large frames in bursts with pauses between them,
//! packets framed for the RTSP connection, and the numbers that a session starts from.

use crate::bytes::{append_be16, append_bytes, be16, be16_bytes, lemma_be16_bytes_read_back, nested, read_be16};
use crate::rtp::{advanced, frame_packets, RtpPacketizer};
use crate::stream_state::{
    channel_of, ChannelView, ClientId, Frame, HubView, Received, StreamState,
};
use vstd::prelude::*;
use vstd::slice::{slice_subrange, slice_to_vec};

verus! {

/// `std::io::Error`, which a sink that cannot send gives back. Nothing is known of its contents.
#[verifier::external_type_specification]
#[verifier::external_body]
pub struct ExIoError(std::io::Error);

/// First byte of a packet on the RTSP connection.
pub const INTERLEAVED_FRAME_MARKER: u8 = 0x24;

/// Bytes before a packet on the RTSP connection: marker, channel, length.
pub const INTERLEAVED_FRAMING_BYTES: usize = 4;

/// Frames of more bytes are sent with pauses.
pub const PACING_FRAME_THRESHOLD_BYTES: usize = 65_536;

/// Packets between two pauses.
pub const PACING_CHUNK_PACKETS: usize = 35;

pub const SPLITMIX_MULTIPLIER: u64 = 6_364_136_223_846_793_005;

pub const SPLITMIX_INCREMENT: u64 = 14_426_950_408_889_634_077;

pub const GOLDEN_RATIO_64: u64 = 0x9E37_79B9_7F4A_7C15;

/// A packet that a sink was given, and the error that it gave back, if any.
pub struct Attempt {
    pub packet: Seq<u8>,
    pub error: Option<std::io::Error>,
}

/// Attempts that all went well.
pub open spec fn taken(packets: Seq<Seq<u8>>) -> Seq<Attempt> {
    Seq::new(packets.len(), |i: int| Attempt { packet: packets[i], error: None })
}

/// Where packets go.
pub trait PacketSink {
    /// What has been sent.
    spec fn sent(&self) -> Seq<Seq<u8>>;

    /// Every packet that was given, in this order, and what came of it.
    spec fn tries(&self) -> Seq<Attempt>;

    /// Whether sinks of this kind take every packet.
    spec fn takes_all() -> bool;

    /// Sends one packet. An error means that the way is broken.
    fn send(&mut self, pkt: &[u8]) -> (r: Result<(), std::io::Error>)
        ensures
            r is Ok ==> final(self).sent() == old(self).sent().push(pkt@),
            r is Err ==> final(self).sent() == old(self).sent(),
            final(self).tries() == old(self).tries().push(
                Attempt {
                    packet: pkt@,
                    error: match r {
                        Ok(_) => None,
                        Err(e) => Some(e),
                    },
                },
            ),
            Self::takes_all() ==> r is Ok,
    ;
}

/// A sink that keeps what it is sent.
#[derive(Debug, PartialEq, Eq)]
pub struct VecSink {
    packets: Vec<Vec<u8>>,
}

impl View for VecSink {
    type V = Seq<Seq<u8>>;

    closed spec fn view(&self) -> Seq<Seq<u8>> {
        nested(self.packets@)
    }
}

impl VecSink {
    pub fn new() -> (r: VecSink)
        ensures
            r@.len() == 0,
    {
        VecSink { packets: Vec::new() }
    }

    /// The packets, in the order in which they were sent.
    pub fn packets(&self) -> (r: &[Vec<u8>])
        ensures
            nested(r@) == self@,
    {
        self.packets.as_slice()
    }

    pub fn into_packets(self) -> (r: Vec<Vec<u8>>)
        ensures
            nested(r@) == self@,
    {
        self.packets
    }
}

impl Default for VecSink {
    fn default() -> (r: VecSink)
        ensures
            r@.len() == 0,
    {
        VecSink::new()
    }
}

impl PacketSink for VecSink {
    open spec fn sent(&self) -> Seq<Seq<u8>> {
        self@
    }

    open spec fn tries(&self) -> Seq<Attempt> {
        taken(self@)
    }

    open spec fn takes_all() -> bool {
        true
    }

    fn send(&mut self, pkt: &[u8]) -> (r: Result<(), std::io::Error>) {
        let ghost before = nested(self.packets@);
        self.packets.push(slice_to_vec(pkt));
        assert(nested(self.packets@) =~= before.push(pkt@));
        assert(self.tries() =~= old(self).tries().push(Attempt { packet: pkt@, error: None }));
        Ok(())
    }
}

/// Packetizes a frame and sends its packets one after the other. The first that fails ends the
/// frame, and its error is given back: no packet is tried twice, and none behind it.
pub fn pump_frame_into<S: PacketSink>(sink: &mut S, packetizer: &mut RtpPacketizer, frame: &Frame) -> (r: Result<
    (),
    std::io::Error,
>)
    ensures
        ({
            let packets = frame_packets(old(packetizer)@, frame.timestamp_ms, frame@.nalus);
            &&& final(packetizer)@ == advanced(old(packetizer)@, packets.len() as int)
            &&& r is Ok ==> final(sink).sent() == old(sink).sent() + packets
            &&& r is Ok ==> final(sink).tries() == old(sink).tries() + taken(packets)
            &&& r matches Err(e) ==> exists|k: int|
                {
                    &&& 0 <= k < packets.len()
                    &&& final(sink).sent() == old(sink).sent() + #[trigger] packets.take(k)
                    &&& final(sink).tries() == (old(sink).tries() + taken(packets.take(k))).push(
                        Attempt { packet: packets[k], error: Some(e) },
                    )
                }
            &&& S::takes_all() ==> r is Ok
        }),
{
    let packets = packetizer.packetize_frame(frame);
    let ghost want = nested(packets@);
    let mut i: usize = 0;
    assert(sink.sent() =~= old(sink).sent() + want.take(0));
    assert(sink.tries() =~= old(sink).tries() + taken(want.take(0)));
    while i < packets.len()
        invariant
            i <= packets@.len(),
            want == nested(packets@),
            want == frame_packets(old(packetizer)@, frame.timestamp_ms, frame@.nalus),
            packetizer@ == advanced(old(packetizer)@, want.len() as int),
            sink.sent() == old(sink).sent() + want.take(i as int),
            sink.tries() == old(sink).tries() + taken(want.take(i as int)),
        decreases packets@.len() - i,
    {
        match sink.send(packets[i].as_slice()) {
            Ok(()) => {},
            Err(e) => {
                return Err(e);
            },
        }
        assert(sink.sent() =~= old(sink).sent() + want.take(i + 1)) by {
            assert(want.take(i + 1) =~= want.take(i as int).push(packets@[i as int]@));
        }
        assert(sink.tries() =~= old(sink).tries() + taken(want.take(i + 1)));
        i += 1;
    }
    assert(want.take(want.len() as int) =~= want);
    Ok(())
}

/// How many bytes the units of a frame have.
pub open spec fn total_bytes(nalus: Seq<Seq<u8>>) -> nat
    decreases nalus.len(),
{
    if nalus.len() == 0 {
        0
    } else {
        total_bytes(nalus.drop_last()) + nalus.last().len()
    }
}

/// Whether a frame is large enough to be sent with pauses.
pub fn needs_pacing(frame: &Frame) -> (r: bool)
    ensures
        r == (total_bytes(frame@.nalus) > PACING_FRAME_THRESHOLD_BYTES),
{
    let ghost nalus = frame@.nalus;
    let mut total: usize = 0;
    let mut i: usize = 0;
    assert(nalus.take(0) =~= Seq::empty());
    while i < frame.nalus.len()
        invariant
            i <= frame.nalus@.len(),
            nalus == nested(frame.nalus@),
            total == total_bytes(nalus.take(i as int)),
            total <= PACING_FRAME_THRESHOLD_BYTES,
        decreases frame.nalus@.len() - i,
    {
        proof {
            assert(nalus.take(i + 1).drop_last() =~= nalus.take(i as int));
            assert(nalus.take(i + 1).last() == frame.nalus@[i as int]@);
        }
        let len: usize = frame.nalus[i].len();
        if len > PACING_FRAME_THRESHOLD_BYTES - total {
            proof {
                lemma_total_grows(nalus, i + 1);
            }
            return true;
        }
        total += len;
        i += 1;
    }
    assert(nalus.take(nalus.len() as int) =~= nalus);
    false
}

proof fn lemma_total_grows(nalus: Seq<Seq<u8>>, n: int)
    requires
        0 <= n <= nalus.len(),
    ensures
        total_bytes(nalus.take(n)) <= total_bytes(nalus),
    decreases nalus.len() - n,
{
    if n < nalus.len() {
        lemma_total_grows(nalus, n + 1);
        assert(nalus.take(n + 1).drop_last() =~= nalus.take(n));
    } else {
        assert(nalus.take(n) =~= nalus);
    }
}

/// A packet to send, and whether to pause behind it.
#[derive(Debug, PartialEq, Eq)]
pub struct PacedPacket {
    pub bytes: Vec<u8>,
    pub pause: bool,
}

/// The bytes of paced packets.
pub open spec fn packet_bytes(packets: Seq<PacedPacket>) -> Seq<Seq<u8>> {
    Seq::new(packets.len(), |i: int| packets[i].bytes@)
}

/// Packetizes a frame; a large one gets a pause behind every 35th packet.
pub fn paced_packets(packetizer: &mut RtpPacketizer, frame: &Frame) -> (r: Vec<PacedPacket>)
    ensures
        packet_bytes(r@) == frame_packets(old(packetizer)@, frame.timestamp_ms, frame@.nalus),
        final(packetizer)@ == advanced(old(packetizer)@, r@.len() as int),
        forall|i: int|
            0 <= i < r@.len() ==> (#[trigger] r@[i]).pause == (total_bytes(frame@.nalus)
                > PACING_FRAME_THRESHOLD_BYTES && (i + 1) % PACING_CHUNK_PACKETS as int == 0),
{
    let pacing = needs_pacing(frame);
    let packets = packetizer.packetize_frame(frame);
    let ghost want = nested(packets@);
    let mut out: Vec<PacedPacket> = Vec::new();
    let mut i: usize = 0;
    let count: usize = packets.len();
    while i < count
        invariant
            i <= count == packets@.len(),
            want == nested(packets@),
            packet_bytes(out@) == want.take(i as int),
            out@.len() == i,
            pacing == (total_bytes(frame@.nalus) > PACING_FRAME_THRESHOLD_BYTES),
            forall|k: int|
                0 <= k < out@.len() ==> (#[trigger] out@[k]).pause == (pacing && (k + 1)
                    % PACING_CHUNK_PACKETS as int == 0),
        decreases count - i,
    {
        let ghost before = packet_bytes(out@);
        let bytes = slice_to_vec(packets[i].as_slice());
        i += 1;
        out.push(PacedPacket { bytes, pause: pacing && i % PACING_CHUNK_PACKETS == 0 });
        assert(packet_bytes(out@) =~= before.push(packets@[i - 1]@));
        assert(packet_bytes(out@) =~= want.take(i as int));
    }
    assert(packet_bytes(out@) =~= want);
    out
}

/// What a session's pump does next.
#[derive(Debug, PartialEq, Eq)]
pub enum PumpAction {
    /// Send these, and pause where they say so.
    Send(Vec<PacedPacket>),
    /// Nothing has come; look again.
    Wait,
    /// The client has been let go; end.
    Stop,
}

/// Takes the next frame from a client's queue and turns it into packets.
pub fn pump_step(hub: &mut StreamState, packetizer: &mut RtpPacketizer, id: ClientId) -> (r: PumpAction)
    ensures
        match channel_of(old(hub)@.channels, id) {
            None => r is Stop && final(hub)@ == old(hub)@ && final(packetizer)@ == old(packetizer)@,
            Some(i) => {
                let c = old(hub)@.channels[i];
                if c.queue.len() > 0 {
                    let packets = frame_packets(
                        old(packetizer)@,
                        c.queue[0].timestamp_ms,
                        c.queue[0].nalus,
                    );
                    &&& r matches PumpAction::Send(p) && packet_bytes(p@) == packets && forall|k: int|
                        0 <= k < p@.len() ==> (#[trigger] p@[k]).pause == (total_bytes(c.queue[0].nalus)
                            > PACING_FRAME_THRESHOLD_BYTES && (k + 1) % PACING_CHUNK_PACKETS as int == 0)
                    &&& final(packetizer)@ == advanced(old(packetizer)@, packets.len() as int)
                    &&& final(hub)@ == (HubView {
                        channels: old(hub)@.channels.update(
                            i,
                            ChannelView { queue: c.queue.skip(1), ..c },
                        ),
                        ..old(hub)@
                    })
                } else {
                    &&& final(hub)@ == old(hub)@
                    &&& final(packetizer)@ == old(packetizer)@
                    &&& c.registered ==> r is Wait
                    &&& !c.registered ==> r is Stop
                }
            },
        },
{
    match hub.receive(id) {
        Received::Frame(frame) => {
            let packets = paced_packets(packetizer, &frame);
            assert(packet_bytes(packets@).len() == packets@.len());
            PumpAction::Send(packets)
        },
        Received::Empty => PumpAction::Wait,
        Received::Disconnected => PumpAction::Stop,
    }
}

/// A packet as it travels on the RTSP connection.
pub open spec fn interleaved(channel: u8, pkt: Seq<u8>) -> Seq<u8> {
    seq![INTERLEAVED_FRAME_MARKER, channel] + be16_bytes(pkt.len() as int) + pkt
}

/// Frames a packet for the RTSP connection; one of more than 65535 bytes cannot be.
pub fn interleaved_frame(channel: u8, pkt: &[u8]) -> (r: Option<Vec<u8>>)
    ensures
        r is Some <==> pkt@.len() <= 0xFFFF,
        r matches Some(f) ==> f@ == interleaved(channel, pkt@),
{
    if pkt.len() > 0xFFFF {
        return None;
    }
    let mut out: Vec<u8> = Vec::new();
    out.push(INTERLEAVED_FRAME_MARKER);
    out.push(channel);
    append_be16(&mut out, pkt.len() as u16);
    append_bytes(&mut out, pkt);
    assert(out@ =~= interleaved(channel, pkt@));
    Some(out)
}

/// `s` without the whole packets at its head.
pub open spec fn drained(s: Seq<u8>) -> Seq<u8>
    decreases s.len(),
{
    if s.len() >= 4 && s[0] == INTERLEAVED_FRAME_MARKER && s.len() >= 4 + be16(s[2], s[3]) {
        drained(s.skip(4 + be16(s[2], s[3])))
    } else {
        s
    }
}

/// Drops the packets that a client has sent on the RTSP connection; one that is not whole yet stays.
pub fn drain_client_interleaved_frames(buf: &mut Vec<u8>)
    ensures
        final(buf)@ == drained(old(buf)@),
{
    let total: usize = buf.len();
    let mut at: usize = 0;
    assert(buf@.skip(0) =~= buf@);
    loop
        invariant_except_break
            at <= total,
        invariant
            at <= total,
            total == buf@.len(),
            *buf == *old(buf),
            drained(buf@) == drained(buf@.skip(at as int)),
        ensures
            drained(buf@) == buf@.skip(at as int),
        decreases total - at,
    {
        if total - at < 4 || buf[at] != INTERLEAVED_FRAME_MARKER {
            break;
        }
        let len: usize = read_be16(buf[at + 2], buf[at + 3]) as usize;
        if total - at - 4 < len {
            break;
        }
        assert(buf@.skip(at as int).skip(4 + len as int) =~= buf@.skip(at + 4 + len));
        at = at + 4 + len;
    }
    let rest = slice_to_vec(slice_subrange(buf.as_slice(), at, total));
    assert(rest@ =~= buf@.skip(at as int));
    *buf = rest;
}

/// Packets on the RTSP connection leave nothing behind: what follows them is what is left.
pub proof fn law_packets_are_drained(channel: u8, pkt: Seq<u8>, rest: Seq<u8>)
    requires
        pkt.len() <= 0xFFFF,
    ensures
        drained(interleaved(channel, pkt) + rest) == drained(rest),
{
    lemma_be16_bytes_read_back(pkt.len() as int);
    let s = interleaved(channel, pkt) + rest;
    let h = be16_bytes(pkt.len() as int);
    assert(s[2] == h[0] && s[3] == h[1]);
    assert(s.skip(4 + pkt.len() as int) =~= rest);
}

/// A request is never taken for a packet: it does not begin with the marker.
pub proof fn law_requests_are_not_drained(s: Seq<u8>)
    requires
        s.len() > 0,
        s[0] != INTERLEAVED_FRAME_MARKER,
    ensures
        drained(s) == s,
{
}

/// The product of two numbers, without what overflows.
pub open spec fn wrapped_product(a: u64, b: u64) -> u64 {
    ((a * b) % 0x1_0000_0000_0000_0000) as u64
}

fn wrapping_product(a: u64, b: u64) -> (r: u64)
    ensures
        r == wrapped_product(a, b),
{
    proof {
        assert(0 <= a * b <= 0xFFFF_FFFF_FFFF_FFFF * 0xFFFF_FFFF_FFFF_FFFF) by (nonlinear_arith)
            requires
                0 <= a <= 0xFFFF_FFFF_FFFF_FFFF,
                0 <= b <= 0xFFFF_FFFF_FFFF_FFFF,
        ;
    }
    (a as u128 * b as u128 % 0x1_0000_0000_0000_0000) as u64
}

/// One round of mixing.
pub open spec fn mixed(z: u64) -> u64 {
    let a = ((z + SPLITMIX_INCREMENT) % 0x1_0000_0000_0000_0000) as u64;
    let b = wrapped_product(a ^ (a >> 30), SPLITMIX_MULTIPLIER);
    let c = wrapped_product(b ^ (b >> 27), SPLITMIX_MULTIPLIER);
    c ^ (c >> 31)
}

/// Spreads the bits of `z`.
pub fn splitmix64(z: u64) -> (r: u64)
    ensures
        r == mixed(z),
{
    let a: u64 = ((z as u128 + SPLITMIX_INCREMENT as u128) % 0x1_0000_0000_0000_0000) as u64;
    let b: u64 = wrapping_product(a ^ (a >> 30), SPLITMIX_MULTIPLIER);
    let c: u64 = wrapping_product(b ^ (b >> 27), SPLITMIX_MULTIPLIER);
    c ^ (c >> 31)
}

/// What a session starts from: the clock, and a number that no other session of the process has.
pub open spec fn seed_of(nanos: u64, counter: u64) -> u64 {
    nanos ^ wrapped_product(counter, GOLDEN_RATIO_64)
}

/// Combines the clock with the session's number.
pub fn session_seed(nanos: u64, counter: u64) -> (r: u64)
    ensures
        r == seed_of(nanos, counter),
{
    nanos ^ wrapping_product(counter, GOLDEN_RATIO_64)
}

/// The SSRC that a seed gives: the upper half of what it mixes to.
pub fn ssrc_from(seed: u64) -> (r: u32)
    ensures
        r == mixed(seed) / 0x1_0000_0000,
{
    (splitmix64(seed) / 0x1_0000_0000) as u32
}

/// The first sequence number that a seed gives: bits 16 to 31 of what it mixes to.
pub fn seq_from(seed: u64) -> (r: u16)
    ensures
        r == mixed(seed) / 0x1_0000 % 0x1_0000,
{
    (splitmix64(seed) / 0x1_0000 % 0x1_0000) as u16
}

/// Sessions that start at the same moment start from different seeds.
pub proof fn law_seeds_differ(nanos: u64, a: u64, b: u64)
    requires
        a != b,
    ensures
        seed_of(nanos, a) != seed_of(nanos, b),
{
    let x = wrapped_product(a, GOLDEN_RATIO_64);
    let y = wrapped_product(b, GOLDEN_RATIO_64);
    lemma_xor_cancels(nanos, x, y);
    lemma_golden_cancels(a);
    lemma_golden_cancels(b);
}

proof fn lemma_xor_cancels(n: u64, x: u64, y: u64)
    by (bit_vector)
    ensures
        n ^ x == n ^ y ==> x == y,
{
}

/// Multiplying by the golden ratio can be undone.
proof fn lemma_golden_cancels(a: u64)
    ensures
        (wrapped_product(a, GOLDEN_RATIO_64) as int * 0xF1DE_83E1_9937_733D) % 0x1_0000_0000_0000_0000 == a,
{
    let m: int = 0x1_0000_0000_0000_0000;
    let g: int = 0x9E37_79B9_7F4A_7C15;
    let h: int = 0xF1DE_83E1_9937_733D;
    let x = a as int;
    vstd::arithmetic::div_mod::lemma_mul_mod_noop_left(x * g, h, m);
    assert((x * g) * h == x * (g * h)) by (nonlinear_arith);
    assert((g * h) % m == 1) by (nonlinear_arith)
        requires
            g == 0x9E37_79B9_7F4A_7C15,
            h == 0xF1DE_83E1_9937_733D,
            m == 0x1_0000_0000_0000_0000,
    ;
    vstd::arithmetic::div_mod::lemma_mul_mod_noop_right(x, g * h, m);
    vstd::arithmetic::div_mod::lemma_small_mod(a as nat, m as nat);
}

} // verus!
