//! Laws of the codec's records and of the video tags that carry them.

use crate::avc::{config_record, entry_bytes, entry_len, nalu_stream, skip_entries, AvcConfigView, AvcError};
use crate::flv_parser::ParseError;
use crate::flv_video::{video_event, VideoEventView, FOURCC_AVC1};
use vstd::prelude::*;

verus! {

/// Parameter sets on the wire: each behind its length in two bytes.
pub open spec fn written_sets(sets: Seq<Seq<u8>>) -> Seq<u8>
    decreases sets.len(),
{
    if sets.len() == 0 {
        Seq::empty()
    } else {
        seq![(sets[0].len() / 256) as u8, (sets[0].len() % 256) as u8] + sets[0] + written_sets(sets.skip(1))
    }
}

/// A configuration record on the wire. `marks` are the bits beside the count of sequence sets.
pub open spec fn written_record(
    profile: u8,
    compat: u8,
    level: u8,
    length_size: u8,
    marks: u8,
    sps: Seq<Seq<u8>>,
    pps: Seq<Seq<u8>>,
) -> Seq<u8> {
    seq![1, profile, compat, level, length_size, (8 * marks + sps.len()) as u8] + written_sets(sps) + seq![
        pps.len() as u8,
    ] + written_sets(pps)
}

/// Whether the sets can stand in a record: none is too long, and the first is not empty.
pub open spec fn are_sets(sets: Seq<Seq<u8>>, most: int) -> bool {
    &&& sets.len() <= most
    &&& forall|i: int| 0 <= i < sets.len() ==> (#[trigger] sets[i]).len() <= 0xFFFF
    &&& sets.len() > 0 ==> sets[0].len() > 0
}

/// The first of the sets; nothing where there is none.
pub open spec fn first_of(sets: Seq<Seq<u8>>) -> Seq<u8> {
    if sets.len() == 0 {
        Seq::empty()
    } else {
        sets[0]
    }
}

proof fn lemma_first_set(sets: Seq<Seq<u8>>, rest: Seq<u8>)
    requires
        sets.len() > 0,
        sets[0].len() <= 0xFFFF,
    ensures
        ({
            let s = written_sets(sets) + rest;
            let n = sets[0].len() as int;
            &&& s.len() >= 2 + n
            &&& entry_len(s) == n
            &&& entry_bytes(s) == sets[0]
            &&& s.skip(2 + n) == written_sets(sets.skip(1)) + rest
        }),
{
    let s = written_sets(sets) + rest;
    let n = sets[0].len() as int;
    assert(s[0] == (n / 256) as u8 && s[1] == (n % 256) as u8);
    assert(entry_bytes(s) =~= sets[0]);
    assert(s.skip(2 + n) =~= written_sets(sets.skip(1)) + rest);
}

proof fn lemma_sets_are_walked(sets: Seq<Seq<u8>>, rest: Seq<u8>)
    requires
        forall|i: int| 0 <= i < sets.len() ==> (#[trigger] sets[i]).len() <= 0xFFFF,
    ensures
        skip_entries(written_sets(sets) + rest, sets.len()) == Some(rest),
    decreases sets.len(),
{
    if sets.len() == 0 {
        assert(written_sets(sets) + rest =~= rest);
    } else {
        let tail = sets.skip(1);
        assert forall|i: int| 0 <= i < tail.len() implies (#[trigger] tail[i]).len() <= 0xFFFF by {
            assert(tail[i] == sets[i + 1]);
        }
        lemma_first_set(sets, rest);
        lemma_sets_are_walked(tail, rest);
    }
}

proof fn lemma_cut_sets_end_early(sets: Seq<Seq<u8>>, n: int)
    requires
        forall|i: int| 0 <= i < sets.len() ==> (#[trigger] sets[i]).len() <= 0xFFFF,
        0 <= n < written_sets(sets).len(),
    ensures
        skip_entries(written_sets(sets).take(n), sets.len()) is None,
    decreases sets.len(),
{
    let s = written_sets(sets).take(n);
    let first = sets[0].len() as int;
    let tail = sets.skip(1);
    assert(written_sets(sets) + Seq::<u8>::empty() =~= written_sets(sets));
    assert(written_sets(tail) + Seq::<u8>::empty() =~= written_sets(tail));
    lemma_first_set(sets, Seq::empty());
    if n >= 2 {
        assert(s[0] == written_sets(sets)[0] && s[1] == written_sets(sets)[1]);
        if n >= 2 + first {
            assert forall|i: int| 0 <= i < tail.len() implies (#[trigger] tail[i]).len() <= 0xFFFF by {
                assert(tail[i] == sets[i + 1]);
            }
            assert(s.skip(2 + first) =~= written_sets(tail).take(n - 2 - first));
            lemma_cut_sets_end_early(tail, n - 2 - first);
        }
    }
}

/// A configuration record is read back: profile, compatibility and level are the ones it was written
/// with, and of the parameter sets the first of each kind is kept. What follows the record does not
/// matter.
pub proof fn law_record_is_read_back(
    profile: u8,
    compat: u8,
    level: u8,
    length_size: u8,
    marks: u8,
    sps: Seq<Seq<u8>>,
    pps: Seq<Seq<u8>>,
    rest: Seq<u8>,
)
    requires
        marks < 32,
        are_sets(sps, 7),
        are_sets(pps, 255),
    ensures
        config_record(written_record(profile, compat, level, length_size, marks, sps, pps) + rest) == Ok::<
            AvcConfigView,
            AvcError,
        >(
            AvcConfigView {
                profile_indication: profile,
                profile_compat: compat,
                level_indication: level,
                sps: first_of(sps),
                pps: first_of(pps),
            },
        ),
{
    let record = written_record(profile, compat, level, length_size, marks, sps, pps) + rest;
    let behind = seq![pps.len() as u8] + written_sets(pps) + rest;
    assert(record.skip(6) =~= written_sets(sps) + behind);
    assert(record[5] == 8 * marks + sps.len());
    lemma_sets_are_walked(sps, behind);
    assert(behind.skip(1) =~= written_sets(pps) + rest);
    lemma_sets_are_walked(pps, rest);
    if sps.len() > 0 {
        lemma_first_set(sps, behind);
    }
    if pps.len() > 0 {
        lemma_first_set(pps, rest);
    }
}

/// A configuration record that is cut anywhere behind its first byte is refused as one that ends too
/// early.
pub proof fn law_cut_record_is_refused(
    profile: u8,
    compat: u8,
    level: u8,
    length_size: u8,
    marks: u8,
    sps: Seq<Seq<u8>>,
    pps: Seq<Seq<u8>>,
    n: int,
)
    requires
        marks < 32,
        are_sets(sps, 7),
        are_sets(pps, 255),
        0 <= n < written_record(profile, compat, level, length_size, marks, sps, pps).len(),
    ensures
        config_record(written_record(profile, compat, level, length_size, marks, sps, pps).take(n)) == Err::<
            AvcConfigView,
            AvcError,
        >(AvcError::Truncated),
{
    let record = written_record(profile, compat, level, length_size, marks, sps, pps);
    let cut = record.take(n);
    let sps_end = 6 + written_sets(sps).len();
    if n >= 6 {
        assert(cut[5] == record[5] && cut[0] == record[0]);
        assert(record[5] == 8 * marks + sps.len());
        if n < sps_end {
            assert(cut.skip(6) =~= written_sets(sps).take(n - 6));
            lemma_cut_sets_end_early(sps, n - 6);
        } else {
            let behind = (seq![pps.len() as u8] + written_sets(pps)).take(n - sps_end);
            assert(cut.skip(6) =~= written_sets(sps) + behind);
            lemma_sets_are_walked(sps, behind);
            if sps.len() > 0 {
                lemma_first_set(sps, behind);
            }
            if n > sps_end {
                assert(behind[0] == pps.len() as u8);
                assert(behind.skip(1) =~= written_sets(pps).take(n - sps_end - 1));
                lemma_cut_sets_end_early(pps, n - sps_end - 1);
            }
        }
    } else if n >= 2 {
        assert(cut[0] == record[0]);
    }
}

/// The bodies that follow the first bytes of a video tag, in the layout of the FLV format and in that
/// of the cameras with the FourCC `avc1`, and what they are: packet type 0 holds a configuration
/// record, 1 the units of a frame behind a composition time, 2 the end of the sequence; the cameras'
/// type 3 holds units without a composition time, type 4 metadata. A frame is a keyframe iff its
/// frame type is 1.
pub proof fn law_packet_types(frame_type: u8, comp_time: Seq<u8>, body: Seq<u8>)
    requires
        frame_type < 8,
        comp_time.len() == 3,
    ensures
        ({
            let first = (16 * frame_type + 7) as u8;
            let avc1 = seq![0x61u8, 0x76, 0x63, 0x31];
            let config = match config_record(body) {
                Ok(c) => Ok::<VideoEventView, ParseError>(VideoEventView::Config(c)),
                Err(AvcError::Truncated) => Err(ParseError::Truncated),
                Err(e) => Err(ParseError::Codec(e)),
            };
            let units = match nalu_stream(body) {
                Some(nalus) => Ok::<VideoEventView, ParseError>(
                    VideoEventView::Frame { is_keyframe: frame_type == 1, nalus },
                ),
                None => Err(ParseError::Truncated),
            };
            let end = Ok::<VideoEventView, ParseError>(VideoEventView::SequenceEnd);
            &&& video_event(seq![first, 0] + comp_time + body) == config
            &&& video_event(seq![first, 1] + comp_time + body) == units
            &&& video_event(seq![first, 2] + comp_time + body) == end
            &&& video_event(seq![(128 + 16 * frame_type) as u8] + avc1 + body) == config
            &&& video_event(seq![(128 + 16 * frame_type + 1) as u8] + avc1 + comp_time + body) == units
            &&& video_event(seq![(128 + 16 * frame_type + 2) as u8] + avc1 + body) == end
            &&& video_event(seq![(128 + 16 * frame_type + 3) as u8] + avc1 + body) == units
            &&& video_event(seq![(128 + 16 * frame_type + 4) as u8] + avc1 + body) == Ok::<
                VideoEventView,
                ParseError,
            >(VideoEventView::Metadata)
        }),
{
    let first = (16 * frame_type + 7) as u8;
    let avc1 = seq![0x61u8, 0x76, 0x63, 0x31];
    assert(avc1 =~= FOURCC_AVC1@);
    assert((seq![first, 0] + comp_time + body).skip(5) =~= body);
    assert((seq![first, 1] + comp_time + body).skip(5) =~= body);
    let q = seq![(128 + 16 * frame_type + 1) as u8] + avc1 + comp_time + body;
    assert(q.subrange(1, 5) =~= avc1);
    assert(q.skip(8) =~= body);
    let p0 = seq![(128 + 16 * frame_type) as u8] + avc1 + body;
    let p2 = seq![(128 + 16 * frame_type + 2) as u8] + avc1 + body;
    let p3 = seq![(128 + 16 * frame_type + 3) as u8] + avc1 + body;
    let p4 = seq![(128 + 16 * frame_type + 4) as u8] + avc1 + body;
    assert(p0.subrange(1, 5) =~= avc1 && p0.skip(5) =~= body);
    assert(p2.subrange(1, 5) =~= avc1 && p2.skip(5) =~= body);
    assert(p3.subrange(1, 5) =~= avc1 && p3.skip(5) =~= body);
    assert(p4.subrange(1, 5) =~= avc1 && p4.skip(5) =~= body);
}

} // verus!
