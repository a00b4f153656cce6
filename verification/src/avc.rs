//! H.264 (AVC) codec bodies: the AVCDecoderConfigurationRecord, which carries the parameter sets,
//! and the length-prefixed NAL unit stream. No container knowledge lives here: the caller strips the
//! video-tag preamble and hands over the codec body alone.

use crate::bytes::{be16, be32, be32_bytes, copy_range, lemma_be32_bytes_read_back, nested, read_be16, read_be32};
use vstd::prelude::*;

verus! {

/// `configurationVersion` that ISO/IEC 14496-15 mandates in byte 0 of a configuration record.
pub const AVC_CONFIG_VERSION: u8 = 1;

/// Bytes before the codec body of a standard AVC video tag: frame/codec byte, packet-type byte and
/// the 3-byte composition time.
pub const AVC_NALU_PREAMBLE_BYTES: usize = 5;

/// The `AVCPacketType` byte of a standard FLV video tag.
#[derive(Debug, Clone, Copy, PartialEq, Eq, Structural)]
pub enum AvcPacketType {
    /// A configuration record follows.
    SeqHeader,
    /// A length-prefixed NAL unit stream follows.
    Nalu,
    /// End of sequence.
    End,
}

/// What the packet-type byte stands for, `None` for the values that the format leaves undefined.
pub open spec fn packet_type_of(byte: u8) -> Option<AvcPacketType> {
    if byte == 0 {
        Some(AvcPacketType::SeqHeader)
    } else if byte == 1 {
        Some(AvcPacketType::Nalu)
    } else if byte == 2 {
        Some(AvcPacketType::End)
    } else {
        None
    }
}

impl AvcPacketType {
    /// Decodes the packet-type byte; unknown values give `None`, so that the caller can reject them
    /// instead of routing the payload wrongly.
    pub fn from_byte(byte: u8) -> (r: Option<AvcPacketType>)
        ensures
            r == packet_type_of(byte),
    {
        match byte {
            0 => Some(AvcPacketType::SeqHeader),
            1 => Some(AvcPacketType::Nalu),
            2 => Some(AvcPacketType::End),
            _ => None,
        }
    }
}

/// Why a configuration record or a NAL unit stream could not be read.
#[derive(Debug, Clone, Copy, PartialEq, Eq, Structural)]
pub enum AvcError {
    /// The buffer ended inside a structure.
    Truncated,
    /// Byte 0 of the record is not the mandated version; carries the byte.
    BadConfigVersion(u8),
}

/// The parts of a configuration record that the proxy uses. Only the first SPS and the first PPS are
/// kept, each without start code and length prefix.
#[derive(Debug, Clone, PartialEq, Eq)]
pub struct AvcDecoderConfig {
    /// AVCProfileIndication, record byte 1.
    pub profile_indication: u8,
    /// profile_compatibility, record byte 2.
    pub profile_compat: u8,
    /// AVCLevelIndication, record byte 3.
    pub level_indication: u8,
    /// The first SPS; empty exactly when the record declares none.
    pub sps: Vec<u8>,
    /// The first PPS; empty exactly when the record declares none.
    pub pps: Vec<u8>,
}

/// The contents of an `AvcDecoderConfig`.
pub struct AvcConfigView {
    pub profile_indication: u8,
    pub profile_compat: u8,
    pub level_indication: u8,
    pub sps: Seq<u8>,
    pub pps: Seq<u8>,
}

impl View for AvcDecoderConfig {
    type V = AvcConfigView;

    open spec fn view(&self) -> AvcConfigView {
        AvcConfigView {
            profile_indication: self.profile_indication,
            profile_compat: self.profile_compat,
            level_indication: self.level_indication,
            sps: self.sps@,
            pps: self.pps@,
        }
    }
}

/// One decoded frame: whether it is a keyframe, and its NAL units in stream order without length
/// prefixes.
#[derive(Debug, Clone, PartialEq, Eq)]
pub struct NaluFrame {
    pub is_keyframe: bool,
    pub nalus: Vec<Vec<u8>>,
}

/// The length that the two bytes at the head of `s` declare.
pub open spec fn entry_len(s: Seq<u8>) -> int {
    be16(s[0], s[1])
}

/// Whether `s` starts with a whole `[u16 length][bytes]` entry.
pub open spec fn has_entry(s: Seq<u8>) -> bool {
    s.len() >= 2 && s.len() >= 2 + entry_len(s)
}

/// The bytes of the entry at the head of `s`.
pub open spec fn entry_bytes(s: Seq<u8>) -> Seq<u8> {
    s.subrange(2, 2 + entry_len(s))
}

/// What is left of `s` behind `n` entries, `None` if it ends before that.
pub open spec fn skip_entries(s: Seq<u8>, n: nat) -> Option<Seq<u8>>
    decreases n,
{
    if n == 0 {
        Some(s)
    } else if has_entry(s) {
        skip_entries(s.skip(2 + entry_len(s)), (n - 1) as nat)
    } else {
        None
    }
}

/// The first of `n` entries at the head of `s`; empty when there is none.
pub open spec fn first_entry(s: Seq<u8>, n: nat) -> Seq<u8> {
    if n == 0 {
        Seq::empty()
    } else {
        entry_bytes(s)
    }
}

/// How many SPS entries a record declares: the low three bits of byte 5.
pub open spec fn sps_count(p: Seq<u8>) -> nat {
    (p[5] % 8) as nat
}

/// The PPS count byte of a record and what follows it.
pub open spec fn behind_sps(p: Seq<u8>) -> Option<Seq<u8>> {
    skip_entries(p.skip(6), sps_count(p))
}

/// How many PPS entries a record declares: the byte behind the SPS entries.
pub open spec fn pps_count(p: Seq<u8>) -> nat {
    behind_sps(p)->0[0] as nat
}

/// Whether the first of `n` entries is declared, but empty.
pub open spec fn starts_empty(s: Seq<u8>, n: nat) -> bool {
    n > 0 && entry_bytes(s).len() == 0
}

/// What a configuration record holds, or why it is none.
///
/// Layout: version, profile, compatibility, level, one reserved byte, then the SPS count in the low
/// three bits of byte 5, the SPS entries, the PPS count byte and the PPS entries. The entries that
/// are kept are not empty.
pub open spec fn config_record(p: Seq<u8>) -> Result<AvcConfigView, AvcError> {
    if p.len() < 2 {
        Err(AvcError::Truncated)
    } else if p[0] != AVC_CONFIG_VERSION {
        Err(AvcError::BadConfigVersion(p[0]))
    } else if p.len() < 6 {
        Err(AvcError::Truncated)
    } else {
        match behind_sps(p) {
            None => Err(AvcError::Truncated),
            Some(q) => if q.len() == 0 || starts_empty(p.skip(6), sps_count(p)) {
                Err(AvcError::Truncated)
            } else {
                match skip_entries(q.skip(1), pps_count(p)) {
                    None => Err(AvcError::Truncated),
                    Some(_) => if starts_empty(q.skip(1), pps_count(p)) {
                        Err(AvcError::Truncated)
                    } else {
                        Ok(
                            AvcConfigView {
                                profile_indication: p[1],
                                profile_compat: p[2],
                                level_indication: p[3],
                                sps: first_entry(p.skip(6), sps_count(p)),
                                pps: first_entry(q.skip(1), pps_count(p)),
                            },
                        )
                    },
                }
            },
        }
    }
}

/// Walks `count` entries of `payload` from `start` on. Gives the position behind them and the bytes
/// of the first, or `None` if the payload ends inside them.
fn walk_entries(payload: &[u8], start: usize, count: u8) -> (r: Option<(usize, Vec<u8>)>)
    requires
        start <= payload@.len(),
    ensures
        match skip_entries(payload@.skip(start as int), count as nat) {
            None => r is None,
            Some(rest) => r matches Some((end, first)) && start <= end <= payload@.len()
                && payload@.skip(end as int) == rest && first@ == first_entry(
                payload@.skip(start as int),
                count as nat,
            ),
        },
{
    let mut pos: usize = start;
    let mut first: Vec<u8> = Vec::new();
    let mut index: u8 = 0;
    while index < count
        invariant
            index <= count,
            start <= pos <= payload@.len(),
            skip_entries(payload@.skip(start as int), count as nat) == skip_entries(
                payload@.skip(pos as int),
                (count - index) as nat,
            ),
            index == 0 ==> pos == start && first@ == Seq::<u8>::empty(),
            index > 0 ==> first@ == entry_bytes(payload@.skip(start as int)),
        decreases count - index,
    {
        let ghost rest = payload@.skip(pos as int);
        let avail: usize = payload.len() - pos;
        if avail < 2 {
            return None;
        }
        let len: usize = read_be16(payload[pos], payload[pos + 1]) as usize;
        assert(rest[0] == payload@[pos as int] && rest[1] == payload@[pos + 1]);
        if avail < 2 + len {
            return None;
        }
        if index == 0 {
            first = copy_range(payload, pos + 2, pos + 2 + len);
            assert(first@ =~= entry_bytes(rest));
        }
        assert(payload@.skip(pos + 2 + len) =~= rest.skip(2 + len));
        pos = pos + 2 + len;
        index += 1;
    }
    Some((pos, first))
}

/// Reads a configuration record. All entries are walked, so a record that ends inside a later SPS or
/// PPS is rejected too; only the first of each is kept. A record whose first SPS or PPS is declared
/// with length 0 is rejected: an empty parameter set means that none is declared.
pub fn parse_avc_config(payload: &[u8]) -> (r: Result<AvcDecoderConfig, AvcError>)
    ensures
        match config_record(payload@) {
            Ok(c) => r matches Ok(cfg) && cfg@ == c,
            Err(e) => r == Err::<AvcDecoderConfig, AvcError>(e),
        },
        r matches Ok(cfg) ==> (cfg.sps@.len() == 0 <==> sps_count(payload@) == 0),
        r matches Ok(cfg) ==> (cfg.pps@.len() == 0 <==> pps_count(payload@) == 0),
{
    if payload.len() < 2 {
        return Err(AvcError::Truncated);
    }
    let version: u8 = payload[0];
    if version != AVC_CONFIG_VERSION {
        return Err(AvcError::BadConfigVersion(version));
    }
    if payload.len() < 6 {
        return Err(AvcError::Truncated);
    }
    let num_sps: u8 = payload[5] % 8;
    let (after_sps, sps): (usize, Vec<u8>) = match walk_entries(payload, 6, num_sps) {
        None => {
            return Err(AvcError::Truncated);
        },
        Some(found) => found,
    };
    let ghost q = payload@.skip(after_sps as int);
    if after_sps >= payload.len() || (num_sps > 0 && sps.len() == 0) {
        return Err(AvcError::Truncated);
    }
    let num_pps: u8 = payload[after_sps];
    assert(q[0] == num_pps);
    assert(payload@.skip(after_sps + 1) =~= q.skip(1));
    let pps: Vec<u8> = match walk_entries(payload, after_sps + 1, num_pps) {
        None => {
            return Err(AvcError::Truncated);
        },
        Some(found) => found.1,
    };
    if num_pps > 0 && pps.len() == 0 {
        return Err(AvcError::Truncated);
    }
    Ok(
        AvcDecoderConfig {
            profile_indication: payload[1],
            profile_compat: payload[2],
            level_indication: payload[3],
            sps,
            pps,
        },
    )
}

/// The NAL units of a `[u32 length][bytes]...` stream, without the empty ones; `None` if the stream
/// ends inside a length or inside a unit.
pub open spec fn nalu_stream(s: Seq<u8>) -> Option<Seq<Seq<u8>>>
    decreases s.len(),
{
    if s.len() == 0 {
        Some(Seq::empty())
    } else if s.len() < 4 {
        None
    } else {
        let n = be32(s[0], s[1], s[2], s[3]);
        if s.len() < 4 + n {
            None
        } else {
            match nalu_stream(s.skip(4 + n)) {
                None => None,
                Some(more) => if n == 0 {
                    Some(more)
                } else {
                    Some(seq![s.subrange(4, 4 + n)] + more)
                },
            }
        }
    }
}

/// Splits a length-prefixed NAL unit stream into its units. Empty units are skipped; a length that
/// is cut off, or that exceeds what follows, is `Truncated`.
pub fn split_length_prefixed_nalus(data: &[u8]) -> (r: Result<Vec<Vec<u8>>, AvcError>)
    ensures
        match nalu_stream(data@) {
            Some(units) => r matches Ok(nalus) && nested(nalus@) == units,
            None => r == Err::<Vec<Vec<u8>>, AvcError>(AvcError::Truncated),
        },
{
    let mut nalus: Vec<Vec<u8>> = Vec::new();
    let mut pos: usize = 0;
    assert(data@.skip(0) =~= data@);
    assert(nested(nalus@) =~= Seq::<Seq<u8>>::empty());
    proof {
        if nalu_stream(data@) is Some {
            assert(Seq::<Seq<u8>>::empty() + nalu_stream(data@)->0 =~= nalu_stream(data@)->0);
        }
    }
    while pos < data.len()
        invariant
            pos <= data@.len(),
            match nalu_stream(data@.skip(pos as int)) {
                None => nalu_stream(data@) is None,
                Some(more) => nalu_stream(data@) == Some(nested(nalus@) + more),
            },
        decreases data@.len() - pos,
    {
        let ghost rest = data@.skip(pos as int);
        let ghost before = nested(nalus@);
        let avail: usize = data.len() - pos;
        if avail < 4 {
            return Err(AvcError::Truncated);
        }
        let len: u32 = read_be32(data[pos], data[pos + 1], data[pos + 2], data[pos + 3]);
        assert(rest[0] == data@[pos as int] && rest[1] == data@[pos + 1] && rest[2] == data@[pos
            + 2] && rest[3] == data@[pos + 3]);
        if (len as u64) > (avail - 4) as u64 {
            return Err(AvcError::Truncated);
        }
        let end: usize = pos + 4 + len as usize;
        assert(data@.skip(end as int) =~= rest.skip(4 + len));
        if len > 0 {
            let unit: Vec<u8> = copy_range(data, pos + 4, end);
            assert(unit@ =~= rest.subrange(4, 4 + len));
            nalus.push(unit);
            assert(nested(nalus@) =~= before.push(rest.subrange(4, 4 + len)));
            proof {
                if let Some(more) = nalu_stream(rest.skip(4 + len)) {
                    assert(before + (seq![rest.subrange(4, 4 + len)] + more) =~= nested(nalus@)
                        + more);
                }
            }
        }
        pos = end;
    }
    assert(data@.skip(pos as int) =~= Seq::<u8>::empty());
    assert(nested(nalus@) + Seq::<Seq<u8>>::empty() =~= nested(nalus@));
    Ok(nalus)
}

/// The length-prefixed stream of `units`.
pub open spec fn join_nalus(units: Seq<Seq<u8>>) -> Seq<u8>
    decreases units.len(),
{
    if units.len() == 0 {
        Seq::empty()
    } else {
        be32_bytes(units[0].len() as int) + units[0] + join_nalus(units.skip(1))
    }
}

/// Splitting undoes joining: a stream written from non-empty units reads back as those units.
pub proof fn law_split_undoes_join(units: Seq<Seq<u8>>)
    requires
        forall|i: int| 0 <= i < units.len() ==> 0 < (#[trigger] units[i]).len() <= u32::MAX,
    ensures
        nalu_stream(join_nalus(units)) == Some(units),
    decreases units.len(),
{
    if units.len() == 0 {
        assert(units =~= Seq::empty());
    } else {
        let n = units[0].len() as int;
        let tail = units.skip(1);
        law_split_undoes_join(tail);
        lemma_be32_bytes_read_back(n);
        let s = join_nalus(units);
        assert(s.subrange(4, 4 + n) =~= units[0]);
        assert(s.skip(4 + n) =~= join_nalus(tail));
        assert(seq![units[0]] + tail =~= units);
    }
}

} // verus!
