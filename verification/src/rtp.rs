//! RTP packets for H.264 (RFC 6184). A NAL unit that fits goes out as a single-NAL-unit packet, a
//! larger one as FU-A fragments. Timestamps are the frame's milliseconds on the 90 kHz clock, shifted
//! by a per-session offset.

use crate::bytes::{append_bytes, be16_bytes, be32_bytes, nested};
use crate::stream_state::Frame;
use vstd::prelude::*;
use vstd::slice::slice_subrange;

verus! {

/// First header byte: version 2, no padding, no extension, no contributors.
pub const RTP_VERSION_BYTE: u8 = 0x80;

/// Dynamic payload type of H.264; the session description advertises the same number.
pub const PAYLOAD_TYPE_H264: u8 = 96;

/// NAL unit type of an FU-A fragment.
pub const NAL_TYPE_FU_A: u8 = 28;

/// Bytes of an FU-A payload before the fragment.
pub const FU_A_HEADER_BYTES: usize = 2;

pub const RTP_HEADER_BYTES: usize = 12;

/// The largest RTP payload: it clears a 1500-byte MTU with room for the headers below.
pub const MAX_PAYLOAD: usize = 1400;

/// Bytes of a NAL unit that one fragment carries.
pub const FU_A_CHUNK: usize = 1398;

pub const RTP_CLOCK_RATE_HZ: u32 = 90_000;

/// Clock ticks per millisecond.
pub const RTP_TICKS_PER_MS: u32 = 90;

/// Seeds of a session. The caller draws the randomness, so that the packets follow from the seeds
/// alone.
#[derive(Debug, Clone, Copy, PartialEq, Eq, Structural)]
pub struct RtpSessionConfig {
    /// Synchronization source, constant over the session.
    pub ssrc: u32,
    /// Sequence number of the first packet.
    pub start_seq: u16,
    /// Added to every timestamp, modulo 2^32.
    pub start_ts_offset: u32,
}

impl RtpSessionConfig {
    /// Seeds without a timestamp offset.
    pub fn new(ssrc: u32, start_seq: u16) -> (r: RtpSessionConfig)
        ensures
            r == (RtpSessionConfig { ssrc, start_seq, start_ts_offset: 0 }),
    {
        RtpSessionConfig { ssrc, start_seq, start_ts_offset: 0 }
    }
}

/// Packetizer of one session. Only the sequence number changes from frame to frame.
pub struct RtpPacketizer {
    ssrc: u32,
    seq: u16,
    payload_type: u8,
    start_ts_offset: u32,
}

/// The contents of an `RtpPacketizer`.
pub struct RtpView {
    pub ssrc: u32,
    pub seq: u16,
    pub payload_type: u8,
    pub start_ts_offset: u32,
}

impl View for RtpPacketizer {
    type V = RtpView;

    closed spec fn view(&self) -> RtpView {
        RtpView {
            ssrc: self.ssrc,
            seq: self.seq,
            payload_type: self.payload_type,
            start_ts_offset: self.start_ts_offset,
        }
    }
}

/// The packetizer at the start of the session that `config` seeds.
pub open spec fn session_start(config: RtpSessionConfig) -> RtpView {
    RtpView {
        ssrc: config.ssrc,
        seq: config.start_seq,
        payload_type: PAYLOAD_TYPE_H264,
        start_ts_offset: config.start_ts_offset,
    }
}

/// The sequence number `n` packets after `seq`.
pub open spec fn seq_after(seq: u16, n: int) -> u16 {
    ((seq + n) % 0x1_0000) as u16
}

/// The fixed header: version, marker and payload type, sequence number, timestamp, source.
pub open spec fn header_bytes(
    marker: bool,
    payload_type: u8,
    seq: u16,
    timestamp: u32,
    ssrc: u32,
) -> Seq<u8> {
    seq![
        RTP_VERSION_BYTE,
        ((if marker {
            0x80int
        } else {
            0
        }) + payload_type % 0x80) as u8,
    ] + be16_bytes(seq as int) + be32_bytes(timestamp as int) + be32_bytes(ssrc as int)
}

/// The timestamp of a frame.
pub open spec fn rtp_timestamp(p: RtpView, timestamp_ms: u32) -> u32 {
    ((p.start_ts_offset + timestamp_ms * RTP_TICKS_PER_MS) % 0x1_0000_0000) as u32
}

/// How many fragments a NAL unit of `len` bytes takes: its header byte is not sent as such.
pub open spec fn fragment_count(len: int) -> int {
    (len - 1 + FU_A_CHUNK - 1) / FU_A_CHUNK as int
}

/// The bytes that fragment `i` carries.
pub open spec fn fragment_body(nalu: Seq<u8>, i: int) -> Seq<u8> {
    let from = 1 + i * FU_A_CHUNK;
    let to = if from + FU_A_CHUNK <= nalu.len() {
        from + FU_A_CHUNK
    } else {
        nalu.len() as int
    };
    nalu.subrange(from, to)
}

/// FU header: the NAL unit type, with the start bit on the first and the end bit on the last
/// fragment.
pub open spec fn fu_header(nalu: Seq<u8>, i: int) -> u8 {
    (nalu[0] % 32 + (if i == 0 {
        0x80int
    } else {
        0
    }) + (if i + 1 == fragment_count(nalu.len() as int) {
        0x40int
    } else {
        0
    })) as u8
}

/// Fragment `i` as a packet.
pub open spec fn fu_packet(
    p: RtpView,
    timestamp: u32,
    nalu: Seq<u8>,
    is_last_nalu: bool,
    seq: u16,
    i: int,
) -> Seq<u8> {
    let marker = is_last_nalu && i + 1 == fragment_count(nalu.len() as int);
    header_bytes(marker, p.payload_type, seq_after(seq, i), timestamp, p.ssrc) + seq![
        (nalu[0] / 32 * 32 + NAL_TYPE_FU_A) as u8,
        fu_header(nalu, i),
    ] + fragment_body(nalu, i)
}

/// The packets of one NAL unit. An empty unit has no header byte to send and gives none.
pub open spec fn nalu_packets(
    p: RtpView,
    timestamp: u32,
    nalu: Seq<u8>,
    is_last_nalu: bool,
    seq: u16,
) -> Seq<Seq<u8>> {
    if nalu.len() == 0 {
        Seq::empty()
    } else if nalu.len() <= MAX_PAYLOAD {
        seq![header_bytes(is_last_nalu, p.payload_type, seq, timestamp, p.ssrc) + nalu]
    } else {
        Seq::new(
            fragment_count(nalu.len() as int) as nat,
            |i: int| fu_packet(p, timestamp, nalu, is_last_nalu, seq, i),
        )
    }
}

/// The packets of the units from index `i` on, the first of them numbered `seq`.
pub open spec fn packets_from(
    p: RtpView,
    timestamp: u32,
    nalus: Seq<Seq<u8>>,
    i: int,
    seq: u16,
) -> Seq<Seq<u8>>
    decreases nalus.len() - i,
{
    if i < 0 || i >= nalus.len() {
        Seq::empty()
    } else {
        let here = nalu_packets(p, timestamp, nalus[i], i + 1 == nalus.len(), seq);
        here + packets_from(p, timestamp, nalus, i + 1, seq_after(seq, here.len() as int))
    }
}

/// The packets of a frame.
pub open spec fn frame_packets(p: RtpView, timestamp_ms: u32, nalus: Seq<Seq<u8>>) -> Seq<Seq<u8>> {
    packets_from(p, rtp_timestamp(p, timestamp_ms), nalus, 0, p.seq)
}

/// The packetizer after it has sent `sent` packets.
pub open spec fn advanced(p: RtpView, sent: int) -> RtpView {
    RtpView { seq: seq_after(p.seq, sent), ..p }
}

/// Sequence numbers count on over several steps.
pub proof fn lemma_seq_after_adds(seq: u16, a: int, b: int)
    requires
        0 <= a,
        0 <= b,
    ensures
        seq_after(seq_after(seq, a), b) == seq_after(seq, a + b),
{
}

/// The packets of a unit depend on the session constants, not on how far the session has come.
proof fn lemma_nalu_packets_by_session(
    p: RtpView,
    q: RtpView,
    timestamp: u32,
    nalu: Seq<u8>,
    is_last_nalu: bool,
    seq: u16,
)
    requires
        p.ssrc == q.ssrc,
        p.payload_type == q.payload_type,
    ensures
        nalu_packets(p, timestamp, nalu, is_last_nalu, seq) == nalu_packets(
            q,
            timestamp,
            nalu,
            is_last_nalu,
            seq,
        ),
{
    assert(nalu_packets(p, timestamp, nalu, is_last_nalu, seq) =~= nalu_packets(
        q,
        timestamp,
        nalu,
        is_last_nalu,
        seq,
    ));
}

impl RtpPacketizer {
    /// A packetizer without a timestamp offset.
    pub fn new(ssrc: u32, start_seq: u16) -> (r: RtpPacketizer)
        ensures
            r@ == session_start(RtpSessionConfig { ssrc, start_seq, start_ts_offset: 0 }),
    {
        RtpPacketizer::with_config(RtpSessionConfig::new(ssrc, start_seq))
    }

    /// A packetizer with the given seeds.
    pub fn with_config(config: RtpSessionConfig) -> (r: RtpPacketizer)
        ensures
            r@ == session_start(config),
    {
        RtpPacketizer {
            ssrc: config.ssrc,
            seq: config.start_seq,
            payload_type: PAYLOAD_TYPE_H264,
            start_ts_offset: config.start_ts_offset,
        }
    }

    /// Turns one frame into packets. All carry the frame's timestamp, the sequence numbers run on
    /// from the frame before, and the marker bit is set on the last packet of the last unit only.
    pub fn packetize_frame(&mut self, frame: &Frame) -> (r: Vec<Vec<u8>>)
        ensures
            nested(r@) == frame_packets(old(self)@, frame.timestamp_ms, nested(frame.nalus@)),
            final(self)@ == advanced(old(self)@, r@.len() as int),
    {
        let ghost p0 = self@;
        let ghost nalus = nested(frame.nalus@);
        let timestamp: u32 = ((self.start_ts_offset as u64 + frame.timestamp_ms as u64
            * RTP_TICKS_PER_MS as u64) % 0x1_0000_0000) as u32;
        let ghost want = packets_from(p0, timestamp, nalus, 0, p0.seq);
        let nalu_count: usize = frame.nalus.len();
        let mut packets: Vec<Vec<u8>> = Vec::new();
        let mut index: usize = 0;
        assert(nested(packets@) =~= Seq::<Seq<u8>>::empty());
        assert(nested(packets@) + want =~= want);
        while index < nalu_count
            invariant
                index <= nalu_count == frame.nalus@.len(),
                nalus == nested(frame.nalus@),
                p0 == old(self)@,
                self@ == advanced(p0, packets@.len() as int),
                want == packets_from(p0, timestamp, nalus, 0, p0.seq),
                want == nested(packets@) + packets_from(
                    p0,
                    timestamp,
                    nalus,
                    index as int,
                    self@.seq,
                ),
            decreases nalu_count - index,
        {
            let is_last_nalu: bool = index + 1 == nalu_count;
            let nalu: &Vec<u8> = &frame.nalus[index];
            let ghost sent = nested(packets@);
            let ghost seq0 = self@.seq;
            let ghost here = nalu_packets(p0, timestamp, nalu@, is_last_nalu, seq0);
            assert(nalus[index as int] == nalu@);
            proof {
                lemma_nalu_packets_by_session(
                    p0,
                    self@,
                    timestamp,
                    nalu@,
                    is_last_nalu,
                    seq0,
                );
                lemma_seq_after_adds(p0.seq, packets@.len() as int, here.len() as int);
            }
            if nalu.len() == 0 {
            } else if nalu.len() <= MAX_PAYLOAD {
                let packet: Vec<u8> = self.build_single_nalu_packet(
                    nalu.as_slice(),
                    timestamp,
                    is_last_nalu,
                );
                packets.push(packet);
                assert(nested(packets@) =~= sent + here);
            } else {
                self.packetize_fu_a(nalu.as_slice(), timestamp, is_last_nalu, &mut packets);
            }
            assert(nested(packets@) =~= sent + here);
            let ghost more = packets_from(
                p0,
                timestamp,
                nalus,
                index + 1,
                seq_after(seq0, here.len() as int),
            );
            assert(sent + (here + more) =~= nested(packets@) + more);
            index += 1;
        }
        assert(nested(packets@) + Seq::<Seq<u8>>::empty() =~= nested(packets@));
        packets
    }

    /// One single-NAL-unit packet.
    fn build_single_nalu_packet(
        &mut self,
        nalu: &[u8],
        timestamp: u32,
        is_last_nalu: bool,
    ) -> (r: Vec<u8>)
        ensures
            r@ == header_bytes(
                is_last_nalu,
                old(self)@.payload_type,
                old(self)@.seq,
                timestamp,
                old(self)@.ssrc,
            ) + nalu@,
            final(self)@ == advanced(old(self)@, 1),
    {
        let header: [u8; 12] = rtp_header(
            is_last_nalu,
            self.payload_type,
            self.seq,
            timestamp,
            self.ssrc,
        );
        let mut packet: Vec<u8> = Vec::with_capacity(RTP_HEADER_BYTES);
        append_bytes(&mut packet, header.as_slice());
        append_bytes(&mut packet, nalu);
        assert(packet@ =~= header@ + nalu@);
        self.bump_seq();
        packet
    }

    /// Appends the FU-A fragments of `nalu` to `packets`.
    #[verifier::spinoff_prover]
    #[verifier::rlimit(60)]
    fn packetize_fu_a(
        &mut self,
        nalu: &[u8],
        timestamp: u32,
        is_last_nalu: bool,
        packets: &mut Vec<Vec<u8>>,
    )
        requires
            nalu@.len() > MAX_PAYLOAD,
        ensures
            nested(final(packets)@) == nested(old(packets)@) + nalu_packets(
                old(self)@,
                timestamp,
                nalu@,
                is_last_nalu,
                old(self)@.seq,
            ),
            final(packets)@.len() == old(packets)@.len() + fragment_count(nalu@.len() as int),
            final(self)@ == advanced(old(self)@, fragment_count(nalu@.len() as int)),
    {
        let ghost p0 = self@;
        let ghost before = nested(packets@);
        let ghost want = nalu_packets(p0, timestamp, nalu@, is_last_nalu, p0.seq);
        let fu_indicator: u8 = nalu[0] / 32 * 32 + NAL_TYPE_FU_A;
        let body_len: usize = nalu.len() - 1;
        let chunk_count: usize = (body_len - 1) / FU_A_CHUNK + 1;
        assert(chunk_count == fragment_count(nalu@.len() as int)) by (nonlinear_arith)
            requires
                chunk_count == (body_len - 1) / 1398 + 1,
                body_len == nalu@.len() - 1,
                body_len >= 1,
        ;
        let mut i: usize = 0;
        let mut from: usize = 1;
        assert(before + want.take(0) =~= before);
        while i < chunk_count
            invariant
                i <= chunk_count == fragment_count(nalu@.len() as int),
                chunk_count >= 1,
                p0 == old(self)@,
                self@ == advanced(p0, i as int),
                nalu@.len() > MAX_PAYLOAD,
                fu_indicator == (nalu@[0] / 32 * 32 + NAL_TYPE_FU_A) as u8,
                from == 1 + i * FU_A_CHUNK || i == chunk_count,
                (chunk_count - 1) * FU_A_CHUNK < nalu@.len() - 1 <= chunk_count * FU_A_CHUNK,
                want == nalu_packets(p0, timestamp, nalu@, is_last_nalu, p0.seq),
                nested(packets@) == before + want.take(i as int),
                packets@.len() == old(packets)@.len() + i,
                before.len() == old(packets)@.len(),
                before == nested(old(packets)@),
            decreases chunk_count - i,
        {
            let is_last: bool = i + 1 == chunk_count;
            let mut fu_head: u8 = nalu[0] % 32;
            if i == 0 {
                fu_head = fu_head + 0x80;
            }
            if is_last {
                fu_head = fu_head + 0x40;
            }
            assert(i * FU_A_CHUNK <= (chunk_count - 1) * FU_A_CHUNK) by (nonlinear_arith)
                requires
                    i <= chunk_count - 1,
            ;
            let left: usize = nalu.len() - from;
            let to: usize = if left >= FU_A_CHUNK {
                from + FU_A_CHUNK
            } else {
                nalu.len()
            };
            let header: [u8; 12] = rtp_header(
                is_last && is_last_nalu,
                self.payload_type,
                self.seq,
                timestamp,
                self.ssrc,
            );
            let mut packet: Vec<u8> = Vec::with_capacity(RTP_HEADER_BYTES);
            append_bytes(&mut packet, header.as_slice());
            packet.push(fu_indicator);
            packet.push(fu_head);
            append_bytes(&mut packet, slice_subrange(nalu, from, to));
            assert(packet@ =~= fu_packet(p0, timestamp, nalu@, is_last_nalu, p0.seq, i as int));
            self.bump_seq();
            let ghost prev = nested(packets@);
            packets.push(packet);
            assert(nested(packets@) =~= prev.push(want[i as int]));
            assert(before + want.take(i + 1) =~= nested(packets@));
            assert((i + 1) * FU_A_CHUNK == i * FU_A_CHUNK + FU_A_CHUNK) by (nonlinear_arith);
            proof {
                if i + 1 < chunk_count {
                    assert((i + 1) * FU_A_CHUNK <= (chunk_count - 1) * FU_A_CHUNK)
                        by (nonlinear_arith)
                        requires
                            i + 1 <= chunk_count - 1,
                    ;
                }
            }
            from = to;
            i += 1;
        }
        assert(want.take(chunk_count as int) =~= want);
    }

    /// Moves on to the next sequence number.
    fn bump_seq(&mut self)
        ensures
            final(self)@ == advanced(old(self)@, 1),
    {
        self.seq = if self.seq == u16::MAX {
            0
        } else {
            self.seq + 1
        };
    }
}

/// Builds the fixed RTP header.
pub fn rtp_header(
    marker: bool,
    payload_type: u8,
    seq: u16,
    timestamp: u32,
    ssrc: u32,
) -> (r: [u8; 12])
    ensures
        r@ == header_bytes(marker, payload_type, seq, timestamp, ssrc),
{
    let mark: u8 = if marker {
        0x80
    } else {
        0
    };
    let h: [u8; 12] = [
        RTP_VERSION_BYTE,
        mark + payload_type % 0x80,
        (seq / 0x100) as u8,
        (seq % 0x100) as u8,
        (timestamp / 0x100_0000) as u8,
        ((timestamp / 0x1_0000) % 0x100) as u8,
        ((timestamp / 0x100) % 0x100) as u8,
        (timestamp % 0x100) as u8,
        (ssrc / 0x100_0000) as u8,
        ((ssrc / 0x1_0000) % 0x100) as u8,
        ((ssrc / 0x100) % 0x100) as u8,
        (ssrc % 0x100) as u8,
    ];
    assert(h@ =~= header_bytes(marker, payload_type, seq, timestamp, ssrc));
    h
}

/// Whether `packet` is well-formed as number `seq` of the session: header fields in place, payload
/// neither empty nor over the limit.
pub open spec fn well_formed_packet(
    p: RtpView,
    timestamp: u32,
    packet: Seq<u8>,
    seq: u16,
    marker: bool,
) -> bool {
    &&& RTP_HEADER_BYTES < packet.len() <= RTP_HEADER_BYTES + MAX_PAYLOAD
    &&& packet.take(12) == header_bytes(marker, p.payload_type, seq, timestamp, p.ssrc)
}

/// Every packet of a frame carries the session's constants, the frame's timestamp and the next
/// sequence number, fits the payload limit, and has the marker bit iff it is the last packet of the
/// last unit.
pub proof fn law_packets_are_well_formed(
    p: RtpView,
    timestamp: u32,
    nalus: Seq<Seq<u8>>,
    i: int,
    seq: u16,
)
    requires
        0 <= i <= nalus.len(),
    ensures
        ({
            let packets = packets_from(p, timestamp, nalus, i, seq);
            forall|k: int|
                0 <= k < packets.len() ==> well_formed_packet(
                    p,
                    timestamp,
                    #[trigger] packets[k],
                    seq_after(seq, k),
                    k + 1 == packets.len() && nalus.last().len() > 0,
                )
        }),
    decreases nalus.len() - i,
{
    let packets = packets_from(p, timestamp, nalus, i, seq);
    if i < nalus.len() {
        let nalu = nalus[i];
        let last = i + 1 == nalus.len();
        let here = nalu_packets(p, timestamp, nalu, last, seq);
        let next = seq_after(seq, here.len() as int);
        law_packets_are_well_formed(p, timestamp, nalus, i + 1, next);
        let more = packets_from(p, timestamp, nalus, i + 1, next);
        if !last && nalus.last().len() > 0 {
            lemma_last_unit_gives_packets(p, timestamp, nalus, i + 1, next);
        }
        assert forall|k: int| 0 <= k < packets.len() implies well_formed_packet(
            p,
            timestamp,
            #[trigger] packets[k],
            seq_after(seq, k),
            k + 1 == packets.len() && nalus.last().len() > 0,
        ) by {
            if k < here.len() {
                assert(packets[k] == here[k]);
                let marker = last && k + 1 == here.len();
                assert(packets[k].take(12) =~= header_bytes(
                    marker,
                    p.payload_type,
                    seq_after(seq, k),
                    timestamp,
                    p.ssrc,
                ));
                if nalu.len() > MAX_PAYLOAD {
                    lemma_fragment_bounds(nalu, k);
                }
            } else {
                assert(packets[k] == more[k - here.len()]);
                lemma_seq_after_adds(seq, here.len() as int, k - here.len());
            }
        }
    }
}

/// Fragment `k` of a large unit is not empty and keeps to the chunk size.
proof fn lemma_fragment_bounds(nalu: Seq<u8>, k: int)
    requires
        nalu.len() > MAX_PAYLOAD,
        0 <= k < fragment_count(nalu.len() as int),
    ensures
        1 + k * FU_A_CHUNK < nalu.len(),
        0 < fragment_body(nalu, k).len() <= FU_A_CHUNK,
        k + 1 == fragment_count(nalu.len() as int) <==> 1 + (k + 1) * FU_A_CHUNK >= nalu.len(),
{
    let n = nalu.len() as int;
    let c = fragment_count(n);
    assert(c == (n - 1 + 1397) / 1398);
    assert((c - 1) * 1398 < n - 1 <= c * 1398);
    assert(k * 1398 <= (c - 1) * 1398) by (nonlinear_arith)
        requires
            k <= c - 1,
    ;
    assert((k + 1) * 1398 == k * 1398 + 1398) by (nonlinear_arith);
    if k + 1 < c {
        assert((k + 1) * 1398 <= (c - 1) * 1398) by (nonlinear_arith)
            requires
                k + 1 <= c - 1,
        ;
    }
}

/// A frame whose last unit is not empty gives packets.
proof fn lemma_last_unit_gives_packets(
    p: RtpView,
    timestamp: u32,
    nalus: Seq<Seq<u8>>,
    i: int,
    seq: u16,
)
    requires
        0 <= i < nalus.len(),
        nalus.last().len() > 0,
    ensures
        packets_from(p, timestamp, nalus, i, seq).len() > 0,
    decreases nalus.len() - i,
{
    let here = nalu_packets(p, timestamp, nalus[i], i + 1 == nalus.len(), seq);
    if i + 1 < nalus.len() {
        lemma_last_unit_gives_packets(
            p,
            timestamp,
            nalus,
            i + 1,
            seq_after(seq, here.len() as int),
        );
    }
}

/// What a receiver that follows RFC 6184 makes of a run of packets: `units` are the NAL units it has
/// so far, `partial` is the fragmented one that it is putting together.
pub open spec fn reassembled(
    packets: Seq<Seq<u8>>,
    units: Seq<Seq<u8>>,
    partial: Seq<u8>,
) -> Seq<Seq<u8>>
    decreases packets.len(),
{
    if packets.len() == 0 {
        units
    } else {
        let payload = packets[0].skip(12);
        let rest = packets.skip(1);
        if payload[0] % 32 != NAL_TYPE_FU_A {
            reassembled(rest, units.push(payload), Seq::empty())
        } else {
            let grown = if payload[1] >= 0x80 {
                seq![(payload[0] / 32 * 32 + payload[1] % 32) as u8] + payload.skip(2)
            } else {
                partial + payload.skip(2)
            };
            if (payload[1] / 0x40) % 2 == 1 {
                reassembled(rest, units.push(grown), Seq::empty())
            } else {
                reassembled(rest, units, grown)
            }
        }
    }
}

/// The units of `nalus` from index `i` on that have bytes.
pub open spec fn non_empty_from(nalus: Seq<Seq<u8>>, i: int) -> Seq<Seq<u8>>
    decreases nalus.len() - i,
{
    if i < 0 || i >= nalus.len() {
        Seq::empty()
    } else if nalus[i].len() == 0 {
        non_empty_from(nalus, i + 1)
    } else {
        seq![nalus[i]] + non_empty_from(nalus, i + 1)
    }
}

/// A receiver puts the non-empty units of a frame together again, byte for byte. A unit whose own
/// type is that of a fragment could not be told from one; the codec defines no such unit.
pub proof fn law_receiver_recovers_the_frame(p: RtpView, timestamp_ms: u32, nalus: Seq<Seq<u8>>)
    requires
        forall|k: int|
            0 <= k < nalus.len() && (#[trigger] nalus[k]).len() > 0 ==> nalus[k][0] % 32
                != NAL_TYPE_FU_A,
    ensures
        reassembled(frame_packets(p, timestamp_ms, nalus), Seq::empty(), Seq::empty())
            == non_empty_from(nalus, 0),
{
    lemma_reassembled_from(
        p,
        rtp_timestamp(p, timestamp_ms),
        nalus,
        0,
        p.seq,
        Seq::empty(),
        Seq::empty(),
    );
    assert(Seq::<Seq<u8>>::empty() + non_empty_from(nalus, 0) =~= non_empty_from(nalus, 0));
}

proof fn lemma_reassembled_from(
    p: RtpView,
    timestamp: u32,
    nalus: Seq<Seq<u8>>,
    i: int,
    seq: u16,
    units: Seq<Seq<u8>>,
    partial: Seq<u8>,
)
    requires
        0 <= i <= nalus.len(),
        forall|k: int|
            0 <= k < nalus.len() && (#[trigger] nalus[k]).len() > 0 ==> nalus[k][0] % 32
                != NAL_TYPE_FU_A,
    ensures
        reassembled(packets_from(p, timestamp, nalus, i, seq), units, partial) == units
            + non_empty_from(nalus, i),
    decreases nalus.len() - i,
{
    if i >= nalus.len() {
        assert(units + Seq::<Seq<u8>>::empty() =~= units);
    } else {
        let nalu = nalus[i];
        let last = i + 1 == nalus.len();
        let here = nalu_packets(p, timestamp, nalu, last, seq);
        let next = seq_after(seq, here.len() as int);
        let more = packets_from(p, timestamp, nalus, i + 1, next);
        if nalu.len() == 0 {
            assert(here + more =~= more);
            lemma_reassembled_from(p, timestamp, nalus, i + 1, next, units, partial);
        } else {
            let tail = non_empty_from(nalus, i + 1);
            assert(units.push(nalu) + tail =~= units + (seq![nalu] + tail));
            lemma_reassembled_from(
                p,
                timestamp,
                nalus,
                i + 1,
                next,
                units.push(nalu),
                Seq::empty(),
            );
            if nalu.len() <= MAX_PAYLOAD {
                assert((here + more)[0].skip(12) =~= nalu);
                assert((here + more).skip(1) =~= more);
            } else {
                assert(here + more =~= here.skip(0) + more);
                lemma_fragments_reassemble(
                    p,
                    timestamp,
                    nalu,
                    last,
                    seq,
                    0,
                    more,
                    units,
                    partial,
                );
            }
        }
    }
}

/// From fragment `i` on, with the bytes before it already put together, the receiver ends up with
/// the whole unit.
proof fn lemma_fragments_reassemble(
    p: RtpView,
    timestamp: u32,
    nalu: Seq<u8>,
    last: bool,
    seq: u16,
    i: int,
    more: Seq<Seq<u8>>,
    units: Seq<Seq<u8>>,
    partial: Seq<u8>,
)
    requires
        nalu.len() > MAX_PAYLOAD,
        0 <= i < fragment_count(nalu.len() as int),
        i > 0 ==> partial == nalu.take(1 + i * FU_A_CHUNK),
    ensures
        reassembled(
            nalu_packets(p, timestamp, nalu, last, seq).skip(i) + more,
            units,
            partial,
        ) == reassembled(more, units.push(nalu), Seq::empty()),
    decreases fragment_count(nalu.len() as int) - i,
{
    let n = nalu.len() as int;
    let count = fragment_count(n);
    let here = nalu_packets(p, timestamp, nalu, last, seq);
    let run = here.skip(i) + more;
    lemma_fragment_bounds(nalu, i);
    assert(run[0] == fu_packet(p, timestamp, nalu, last, seq, i));
    let payload = run[0].skip(12);
    let body = fragment_body(nalu, i);
    assert(payload =~= seq![(nalu[0] / 32 * 32 + NAL_TYPE_FU_A) as u8, fu_header(nalu, i)] + body);
    assert(payload.skip(2) =~= body);
    assert((i + 1) * FU_A_CHUNK == i * FU_A_CHUNK + FU_A_CHUNK) by (nonlinear_arith);
    let grown = if i == 0 {
        seq![nalu[0]] + body
    } else {
        partial + body
    };
    let upto = if i + 1 == count {
        n
    } else {
        1 + (i + 1) * FU_A_CHUNK
    };
    assert(grown =~= nalu.take(upto));
    if i == 0 {
        assert((payload[0] / 32 * 32 + payload[1] % 32) as u8 == nalu[0]);
    }
    assert(run.skip(1) =~= here.skip(i + 1) + more);
    if i + 1 == count {
        assert(here.skip(i + 1) + more =~= more);
        assert(nalu.take(n) =~= nalu);
    } else {
        lemma_fragments_reassemble(p, timestamp, nalu, last, seq, i + 1, more, units, grown);
    }
}

} // verus!
