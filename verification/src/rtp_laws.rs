//! Laws of a session's RTP packets, read off their bytes as a receiver reads them.

use crate::rtp::{
    advanced, fragment_count, frame_packets, header_bytes, law_packets_are_well_formed, nalu_packets,
    packets_from, rtp_timestamp, seq_after, session_start, well_formed_packet, RtpSessionConfig, RtpView,
};
use vstd::prelude::*;

verus! {

/// The number in the two bytes at `at`.
pub open spec fn field16(packet: Seq<u8>, at: int) -> int {
    256 * packet[at] + packet[at + 1]
}

/// The number in the four bytes at `at`.
pub open spec fn field32(packet: Seq<u8>, at: int) -> int {
    65536 * field16(packet, at) + field16(packet, at + 2)
}

/// The packets of a frame that comes when the session has sent `sent` packets.
pub open spec fn session_packets(
    config: RtpSessionConfig,
    sent: int,
    timestamp_ms: u32,
    nalus: Seq<Seq<u8>>,
) -> Seq<Seq<u8>> {
    frame_packets(advanced(session_start(config), sent), timestamp_ms, nalus)
}

/// The clock fields of a packet's bytes, out of the header that the packet begins with.
proof fn lemma_fields_of_header(
    packet: Seq<u8>,
    marker: bool,
    payload_type: u8,
    seq: u16,
    timestamp: u32,
    ssrc: u32,
)
    requires
        packet.len() > 12,
        packet.take(12) == header_bytes(marker, payload_type, seq, timestamp, ssrc),
        payload_type < 128,
    ensures
        packet[0] == 0x80,
        packet[1] == payload_type + (if marker {
            128int
        } else {
            0
        }),
        field16(packet, 2) == seq,
        field32(packet, 4) == timestamp,
        field32(packet, 8) == ssrc,
{
    let h = header_bytes(marker, payload_type, seq, timestamp, ssrc);
    assert(h.len() == 12);
    assert forall|i: int| 0 <= i < 12 implies packet[i] == #[trigger] h[i] by {
        assert(packet[i] == packet.take(12)[i]);
    }
    assert(packet[0] == h[0] && packet[1] == h[1] && packet[2] == h[2] && packet[3] == h[3]);
    assert(packet[4] == h[4] && packet[5] == h[5] && packet[6] == h[6] && packet[7] == h[7]);
    assert(packet[8] == h[8] && packet[9] == h[9] && packet[10] == h[10] && packet[11] == h[11]);
}

/// Sequence numbers counted in two steps.
proof fn lemma_count_on(start: int, sent: int, k: int)
    ensures
        ((start + sent) % 0x1_0000 + k) % 0x1_0000 == (start + sent + k) % 0x1_0000,
        ((start + sent + k) % 0x1_0000 + 1) % 0x1_0000 == (start + sent + k + 1) % 0x1_0000,
{
}

/// A packet of a session begins with the header of its place in the session.
proof fn lemma_packet_of_session(
    config: RtpSessionConfig,
    sent: int,
    timestamp_ms: u32,
    nalus: Seq<Seq<u8>>,
    k: int,
)
    requires
        0 <= sent,
        0 <= k < session_packets(config, sent, timestamp_ms, nalus).len(),
    ensures
        ({
            let p = advanced(session_start(config), sent);
            let packets = session_packets(config, sent, timestamp_ms, nalus);
            well_formed_packet(
                p,
                rtp_timestamp(p, timestamp_ms),
                packets[k],
                seq_after(p.seq, k),
                k + 1 == packets.len() && nalus.last().len() > 0,
            )
        }),
{
    let p = advanced(session_start(config), sent);
    law_packets_are_well_formed(p, rtp_timestamp(p, timestamp_ms), nalus, 0, p.seq);
}

/// Every packet says that it is version 2 and holds payload type 96; its sequence number is the
/// session's first one plus the number of packets that went before it, modulo 2^16; its timestamp is
/// the session's offset plus ninety ticks for each of the frame's milliseconds, modulo 2^32; its
/// source is the session's. The marker bit is on the frame's last packet and on no other, provided
/// that the last unit has bytes, and between 1 and 1400 bytes follow the header.
pub proof fn law_header_fields(
    config: RtpSessionConfig,
    sent: int,
    timestamp_ms: u32,
    nalus: Seq<Seq<u8>>,
    k: int,
)
    requires
        0 <= sent,
        0 <= k < session_packets(config, sent, timestamp_ms, nalus).len(),
    ensures
        ({
            let packets = session_packets(config, sent, timestamp_ms, nalus);
            let packet = packets[k];
            &&& 13 <= packet.len() <= 1412
            &&& packet[0] == 0x80
            &&& packet[1] % 128 == 96
            &&& packet[1] >= 128 <==> k + 1 == packets.len() && nalus.last().len() > 0
            &&& field16(packet, 2) == (config.start_seq + sent + k) % 0x1_0000
            &&& field32(packet, 4) == (config.start_ts_offset + 90 * timestamp_ms) % 0x1_0000_0000
            &&& field32(packet, 8) == config.ssrc
        }),
{
    let p = advanced(session_start(config), sent);
    let timestamp = rtp_timestamp(p, timestamp_ms);
    let packets = session_packets(config, sent, timestamp_ms, nalus);
    let marker = k + 1 == packets.len() && nalus.last().len() > 0;
    lemma_packet_of_session(config, sent, timestamp_ms, nalus, k);
    lemma_fields_of_header(packets[k], marker, 96, seq_after(p.seq, k), timestamp, config.ssrc);
    lemma_count_on(config.start_seq as int, sent, k);
}

/// Two readings of a clock that wraps at 2^32 differ by what the clocked values differ by.
proof fn lemma_clock_difference(offset: int, a: int, b: int)
    ensures
        ((offset + b) % 0x1_0000_0000 - (offset + a) % 0x1_0000_0000) % 0x1_0000_0000 == (b - a)
            % 0x1_0000_0000,
{
}

/// The RTP clock runs with the stream: between any two packets of a session the timestamps differ,
/// modulo 2^32, by ninety times what the frames' milliseconds differ by. A frame at 0 ms has the
/// session's offset.
pub proof fn law_clock_runs_with_the_stream(
    config: RtpSessionConfig,
    sent_a: int,
    ms_a: u32,
    nalus_a: Seq<Seq<u8>>,
    a: int,
    sent_b: int,
    ms_b: u32,
    nalus_b: Seq<Seq<u8>>,
    b: int,
)
    requires
        0 <= sent_a,
        0 <= sent_b,
        0 <= a < session_packets(config, sent_a, ms_a, nalus_a).len(),
        0 <= b < session_packets(config, sent_b, ms_b, nalus_b).len(),
    ensures
        ({
            let first = session_packets(config, sent_a, ms_a, nalus_a)[a];
            let second = session_packets(config, sent_b, ms_b, nalus_b)[b];
            &&& (field32(second, 4) - field32(first, 4)) % 0x1_0000_0000 == (90 * (ms_b - ms_a))
                % 0x1_0000_0000
            &&& ms_a == 0 ==> field32(first, 4) == config.start_ts_offset
        }),
{
    law_header_fields(config, sent_a, ms_a, nalus_a, a);
    law_header_fields(config, sent_b, ms_b, nalus_b, b);
    lemma_clock_difference(config.start_ts_offset as int, 90 * ms_a, 90 * ms_b);
    assert(90 * (ms_b - ms_a) == 90 * ms_b - 90 * ms_a);
}

/// Sequence numbers run on without a gap from one frame into the next: the next frame's first packet
/// follows the last one of this frame.
pub proof fn law_numbers_run_on(
    config: RtpSessionConfig,
    sent: int,
    ms_a: u32,
    nalus_a: Seq<Seq<u8>>,
    ms_b: u32,
    nalus_b: Seq<Seq<u8>>,
)
    requires
        0 <= sent,
        session_packets(config, sent, ms_a, nalus_a).len() > 0,
    ensures
        ({
            let p = advanced(session_start(config), sent);
            let here = session_packets(config, sent, ms_a, nalus_a);
            let next = frame_packets(advanced(p, here.len() as int), ms_b, nalus_b);
            &&& forall|k: int|
                0 < k < here.len() ==> (#[trigger] field16(here[k], 2)) == (field16(here[k - 1], 2) + 1)
                    % 0x1_0000
            &&& next.len() > 0 ==> field16(next[0], 2) == (field16(here.last(), 2) + 1) % 0x1_0000
        }),
{
    let p = advanced(session_start(config), sent);
    let here = session_packets(config, sent, ms_a, nalus_a);
    let after = advanced(p, here.len() as int);
    lemma_count_on(config.start_seq as int, sent, here.len() as int);
    assert(after == advanced(session_start(config), sent + here.len()));
    let next = frame_packets(after, ms_b, nalus_b);
    law_header_fields(config, sent, ms_a, nalus_a, here.len() - 1);
    lemma_count_on(config.start_seq as int, sent, here.len() - 1);
    assert forall|k: int| 0 < k < here.len() implies (#[trigger] field16(here[k], 2)) == (field16(
        here[k - 1],
        2,
    ) + 1) % 0x1_0000 by {
        law_header_fields(config, sent, ms_a, nalus_a, k);
        law_header_fields(config, sent, ms_a, nalus_a, k - 1);
        lemma_count_on(config.start_seq as int, sent, k - 1);
    }
    if next.len() > 0 {
        law_header_fields(config, sent + here.len(), ms_b, nalus_b, 0);
    }
}

/// A unit of up to 1400 bytes goes out whole in one packet. A larger one goes out in as few
/// fragments as carry its bytes after the first, 1398 to a packet; all but the last are full.
pub proof fn law_units_that_fit_go_whole(p: RtpView, timestamp_ms: u32, nalu: Seq<u8>)
    ensures
        ({
            let packets = frame_packets(p, timestamp_ms, seq![nalu]);
            &&& nalu.len() == 0 ==> packets.len() == 0
            &&& 0 < nalu.len() <= 1400 ==> packets.len() == 1 && packets[0].skip(12) == nalu
            &&& nalu.len() > 1400 ==> (packets.len() - 1) * 1398 < nalu.len() - 1 <= packets.len()
                * 1398
            &&& nalu.len() > 1400 ==> forall|k: int|
                0 <= k < packets.len() - 1 ==> (#[trigger] packets[k]).len() == 1412
        }),
{
    let timestamp = rtp_timestamp(p, timestamp_ms);
    let nalus = seq![nalu];
    let here = nalu_packets(p, timestamp, nalu, true, p.seq);
    let more = packets_from(p, timestamp, nalus, 1, seq_after(p.seq, here.len() as int));
    let packets = frame_packets(p, timestamp_ms, nalus);
    assert(more =~= Seq::empty());
    assert(packets =~= here);
    if 0 < nalu.len() <= 1400 {
        assert(packets[0].skip(12) =~= nalu);
    } else if nalu.len() > 1400 {
        let c = fragment_count(nalu.len() as int);
        assert(c == (nalu.len() - 1 + 1397) / 1398);
        assert((c - 1) * 1398 < nalu.len() - 1 <= c * 1398);
        assert forall|k: int| 0 <= k < packets.len() - 1 implies (#[trigger] packets[k]).len() == 1412 by {
            assert((k + 1) * 1398 <= (c - 1) * 1398) by (nonlinear_arith)
                requires
                    k + 1 <= c - 1,
            ;
            assert((k + 1) * 1398 == k * 1398 + 1398) by (nonlinear_arith);
        }
    }
}

} // verus!
