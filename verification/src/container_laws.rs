//! Laws of the container: what stands before the tags, and which tag is which.

use crate::bytes::{be32_bytes, lemma_be32_bytes_read_back};
use crate::flv_parser::{
    detect_and_strip_prefix, frame_run, law_standard_tag_is_framed, parse_header, standard_tag, FlvHeader, FramerState,
    ParseError, TagView, UPFLV_PREFIX,
};
use vstd::prelude::*;

verus! {

/// The cameras' prefix is taken off once, and only as a whole; what does not begin with it stays as it is.
pub proof fn law_prefix_is_taken_off(buf: &[u8], stream: Seq<u8>, r: &[u8])
    requires
        call_ensures(detect_and_strip_prefix, (buf,), r),
    ensures
        ({
            let prefix = seq![0xDEu8, 0x19, 0x16, 0x15, 0x47, 0x17, 0xDE, 0x19, 0x16, 0x75, 0x50];
            &&& buf@ == prefix + stream ==> r@ == stream
            &&& buf@.len() < 11 || buf@.take(11) != prefix ==> r@ == buf@
        }),
{
    let prefix = seq![0xDEu8, 0x19, 0x16, 0x15, 0x47, 0x17, 0xDE, 0x19, 0x16, 0x75, 0x50];
    assert(UPFLV_PREFIX@ =~= prefix);
    if buf@ == prefix + stream {
        assert(prefix.is_prefix_of(buf@));
        assert(buf@.skip(11) =~= stream);
    }
    if prefix.is_prefix_of(buf@) {
        assert(buf@.take(11) =~= prefix);
    }
}

/// A header is read with what it announces, the lowest bit for sound and the third for pictures, and the
/// tags begin where it says that it ends.
pub proof fn law_header_is_read(
    buf: &[u8],
    audio: bool,
    video: bool,
    filler: Seq<u8>,
    rest: Seq<u8>,
    r: Result<(&[u8], FlvHeader), ParseError>,
)
    requires
        9 + filler.len() <= u32::MAX,
        buf@ == seq![
            'F' as u8,
            'L' as u8,
            'V' as u8,
            1u8,
            ((if audio {
                1int
            } else {
                0
            }) + (if video {
                4int
            } else {
                0
            })) as u8,
        ] + be32_bytes(9int + filler.len()) + filler + rest,
        call_ensures(parse_header, (buf,), r),
    ensures
        r matches Ok((tags, h)) && tags@ == rest && h.version == 1 && h.has_audio == audio && h.has_video == video
            && h.header_size == 9 + filler.len(),
{
    let n = 9int + filler.len();
    lemma_be32_bytes_read_back(n);
    let s = buf@;
    let b = be32_bytes(n);
    assert(s[5] == b[0] && s[6] == b[1] && s[7] == b[2] && s[8] == b[3]);
    assert(s.subrange(0, 3) =~= seq![0x46u8, 0x4C, 0x56]);
    assert(crate::flv_parser::FLV_SIGNATURE@ =~= seq![0x46u8, 0x4C, 0x56]);
    assert(s.skip(n) =~= rest);
}

/// What is no header is refused: too short, of another kind, or of another version.
pub proof fn law_other_headers_are_refused(buf: &[u8], r: Result<(&[u8], FlvHeader), ParseError>)
    requires
        call_ensures(parse_header, (buf,), r),
    ensures
        buf@.len() < 9 ==> r == Err::<(&[u8], FlvHeader), ParseError>(ParseError::Truncated),
        buf@.len() >= 9 && buf@.take(3) != seq!['F' as u8, 'L' as u8, 'V' as u8] ==> r == Err::<
            (&[u8], FlvHeader),
            ParseError,
        >(ParseError::BadSignature),
        buf@.len() >= 9 && buf@.take(3) == seq!['F' as u8, 'L' as u8, 'V' as u8] && buf@[3] != 1 ==> r == Err::<
            (&[u8], FlvHeader),
            ParseError,
        >(ParseError::UnsupportedVersion),
{
    if buf@.len() >= 9 {
        assert(buf@.subrange(0, 3) =~= buf@.take(3));
        assert(crate::flv_parser::FLV_SIGNATURE@ =~= seq!['F' as u8, 'L' as u8, 'V' as u8]);
    }
}

/// Tags of type 8 carry sound, of type 9 pictures, and of type 18 metadata; of others the type is kept. Each
/// comes with its time and its body, as they were written.
pub proof fn law_tags_go_by_their_types(
    prev_size: Seq<u8>,
    tag_type: u8,
    timestamp_ms: u32,
    stream_id: Seq<u8>,
    body: Seq<u8>,
    rest: Seq<u8>,
)
    requires
        prev_size.len() == 4,
        stream_id.len() == 3,
        tag_type != 0,
        body.len() <= 8_388_608,
    ensures
        ({
            let n = be32_bytes(body.len() as int);
            let t = be32_bytes(timestamp_ms as int);
            let run = frame_run(
                FramerState::PrevTagSize,
                prev_size + seq![tag_type, n[1], n[2], n[3], t[1], t[2], t[3], t[0]] + stream_id + body + rest,
            );
            let next = frame_run(FramerState::PrevTagSize, rest);
            &&& run.events == seq![
                if tag_type == 8 {
                    TagView::Audio { timestamp_ms, body }
                } else if tag_type == 9 {
                    TagView::Video { timestamp_ms, body }
                } else if tag_type == 18 {
                    TagView::Script { timestamp_ms, body }
                } else {
                    TagView::Unknown { tag_type, timestamp_ms, body }
                },
            ] + next.events
            &&& run.error == next.error && run.rest == next.rest && run.state == next.state
        }),
{
    law_standard_tag_is_framed(prev_size, tag_type, timestamp_ms, stream_id, body, rest);
    assert(standard_tag(prev_size, tag_type, timestamp_ms, stream_id, body) + rest == {
        let n = be32_bytes(body.len() as int);
        let t = be32_bytes(timestamp_ms as int);
        prev_size + seq![tag_type, n[1], n[2], n[3], t[1], t[2], t[3], t[0]] + stream_id + body + rest
    });
}

/// A tag may announce eight mebibytes. One that announces more ends the stream with its type, what it
/// announced and what it might have.
pub proof fn law_large_tags_end_the_stream(prev_size: Seq<u8>, head: Seq<u8>, rest: Seq<u8>)
    requires
        prev_size.len() == 4,
        head.len() == 11,
        head[0] != 0,
    ensures
        ({
            let size = head[1] * 65_536 + head[2] * 256 + head[3];
            let run = frame_run(FramerState::PrevTagSize, prev_size + head + rest);
            &&& size > 8_388_608 ==> run.events.len() == 0 && run.error == Some(
                ParseError::OversizedTag { tag_type: head[0], data_size: size as u32, cap: 8_388_608 },
            )
            &&& size <= 8_388_608 && rest.len() < size ==> run.events.len() == 0 && run.error is None && run.rest
                == rest
        }),
{
    reveal_with_fuel(frame_run, 4);
    let s = prev_size + head + rest;
    assert(s.skip(4) =~= head + rest);
    assert(s.skip(4).skip(11) =~= rest);
}

} // verus!
