//! FLV video-tag bodies. Bit 7 of the first byte selects the standard layout
//! (`[FrameType:4][CodecID:4]`) or the extended one (`[1][FrameType:3][PacketType:4]` and a FourCC).
//! Both strip their preamble here and end in the codec readers of `avc`, so that whoever consumes
//! the events need not know which layout a tag had.

use crate::avc::{
    config_record, nalu_stream, packet_type_of, parse_avc_config, split_length_prefixed_nalus,
    AvcConfigView, AvcDecoderConfig, AvcError, AvcPacketType, NaluFrame, AVC_NALU_PREAMBLE_BYTES,
};
use crate::bytes::{bytes_eq, nested};
use crate::flv_parser::ParseError;
use vstd::prelude::*;
use vstd::slice::slice_subrange;

verus! {

/// CodecID of H.264 in a standard video tag, the only codec the proxy serves.
pub const STD_CODEC_ID_AVC: u8 = 7;

/// FrameType of a keyframe, in both layouts.
pub const FRAME_TYPE_KEYFRAME: u8 = 1;

/// Offset of the packet body in an extended tag: the first byte and the FourCC.
pub const EXT_BODY_OFFSET: usize = 5;

/// Size of the composition time in front of the NAL units of a CodedFrames packet.
pub const EXT_COMP_TIME_BYTES: usize = 3;

/// Extended packet types.
pub const PKT_TYPE_SEQUENCE_START: u8 = 0;

pub const PKT_TYPE_CODED_FRAMES: u8 = 1;

pub const PKT_TYPE_SEQUENCE_END: u8 = 2;

pub const PKT_TYPE_CODED_FRAMES_X: u8 = 3;

pub const PKT_TYPE_METADATA: u8 = 4;

/// FourCC `avc1`.
pub const FOURCC_AVC1: [u8; 4] = [0x61, 0x76, 0x63, 0x31];

/// The layout that the first payload byte selects.
#[derive(Debug, Clone, Copy, PartialEq, Eq, Structural)]
pub enum VideoTagKind {
    Standard,
    Extended,
}

/// Why a structurally valid tag is skipped rather than decoded.
#[derive(Debug, Clone, Copy, PartialEq, Eq)]
pub enum IgnoreReason {
    /// The CodecID of a standard tag was not AVC; carries the CodecID.
    NotAvcCodec(u8),
    /// The FourCC of an extended tag was not `avc1`; carries the FourCC.
    NotAvcFourCC([u8; 4]),
    /// The packet type is not one that the format defines; carries the byte.
    UnknownPacketType(u8),
}

/// The contents of an `IgnoreReason`.
pub enum IgnoreView {
    NotAvcCodec(u8),
    NotAvcFourCC(Seq<u8>),
    UnknownPacketType(u8),
}

impl View for IgnoreReason {
    type V = IgnoreView;

    open spec fn view(&self) -> IgnoreView {
        match self {
            IgnoreReason::NotAvcCodec(id) => IgnoreView::NotAvcCodec(*id),
            IgnoreReason::NotAvcFourCC(fourcc) => IgnoreView::NotAvcFourCC(fourcc@),
            IgnoreReason::UnknownPacketType(byte) => IgnoreView::UnknownPacketType(*byte),
        }
    }
}

/// What a video-tag body turned out to be.
#[derive(Debug, Clone, PartialEq, Eq)]
pub enum VideoTagEvent {
    /// A configuration record.
    Config(AvcDecoderConfig),
    /// A frame.
    Frame(NaluFrame),
    /// End of sequence.
    SequenceEnd,
    /// An extended metadata packet; its payload is dropped.
    Metadata,
    /// Valid, but nothing that the proxy serves.
    Ignored(IgnoreReason),
}

/// The contents of a `VideoTagEvent`.
pub enum VideoEventView {
    Config(AvcConfigView),
    Frame { is_keyframe: bool, nalus: Seq<Seq<u8>> },
    SequenceEnd,
    Metadata,
    Ignored(IgnoreView),
}

impl View for VideoTagEvent {
    type V = VideoEventView;

    open spec fn view(&self) -> VideoEventView {
        match self {
            VideoTagEvent::Config(cfg) => VideoEventView::Config(cfg@),
            VideoTagEvent::Frame(frame) => VideoEventView::Frame {
                is_keyframe: frame.is_keyframe,
                nalus: nested(frame.nalus@),
            },
            VideoTagEvent::SequenceEnd => VideoEventView::SequenceEnd,
            VideoTagEvent::Metadata => VideoEventView::Metadata,
            VideoTagEvent::Ignored(reason) => VideoEventView::Ignored(reason@),
        }
    }
}

/// The layout that `first_byte` selects: extended iff its top bit is set.
pub open spec fn tag_kind(first_byte: u8) -> VideoTagKind {
    if first_byte >= 0x80 {
        VideoTagKind::Extended
    } else {
        VideoTagKind::Standard
    }
}

/// A codec error as a tag error: truncation is truncation, everything else is a codec failure.
pub open spec fn lifted(err: AvcError) -> ParseError {
    match err {
        AvcError::Truncated => ParseError::Truncated,
        other => ParseError::Codec(other),
    }
}

/// The event of a codec body that is a configuration record.
pub open spec fn config_event(body: Seq<u8>) -> Result<VideoEventView, ParseError> {
    match config_record(body) {
        Ok(cfg) => Ok(VideoEventView::Config(cfg)),
        Err(e) => Err(lifted(e)),
    }
}

/// The event of a codec body that is a NAL unit stream.
pub open spec fn frame_event(is_keyframe: bool, body: Seq<u8>) -> Result<
    VideoEventView,
    ParseError,
> {
    match nalu_stream(body) {
        Some(nalus) => Ok(VideoEventView::Frame { is_keyframe, nalus }),
        None => Err(ParseError::Truncated),
    }
}

/// The event of a body in the standard layout.
pub open spec fn standard_event(p: Seq<u8>) -> Result<VideoEventView, ParseError> {
    let keyframe = p[0] / 16 == FRAME_TYPE_KEYFRAME;
    if p.len() < 2 {
        Err(ParseError::Truncated)
    } else if p[0] % 16 != STD_CODEC_ID_AVC {
        Ok(VideoEventView::Ignored(IgnoreView::NotAvcCodec(p[0] % 16)))
    } else {
        match packet_type_of(p[1]) {
            Some(AvcPacketType::SeqHeader) => if p.len() < AVC_NALU_PREAMBLE_BYTES {
                Err(ParseError::Truncated)
            } else {
                config_event(p.skip(AVC_NALU_PREAMBLE_BYTES as int))
            },
            Some(AvcPacketType::Nalu) => if p.len() < AVC_NALU_PREAMBLE_BYTES {
                Err(ParseError::Truncated)
            } else {
                frame_event(keyframe, p.skip(AVC_NALU_PREAMBLE_BYTES as int))
            },
            Some(AvcPacketType::End) => Ok(VideoEventView::SequenceEnd),
            None => Ok(VideoEventView::Ignored(IgnoreView::UnknownPacketType(p[1]))),
        }
    }
}

/// The event of a body in the extended layout.
pub open spec fn extended_event(p: Seq<u8>) -> Result<VideoEventView, ParseError> {
    let keyframe = (p[0] / 16) % 8 == FRAME_TYPE_KEYFRAME;
    let packet_type = p[0] % 16;
    if p.len() < EXT_BODY_OFFSET {
        Err(ParseError::Truncated)
    } else if p.subrange(1, 5) != FOURCC_AVC1@ {
        Ok(VideoEventView::Ignored(IgnoreView::NotAvcFourCC(p.subrange(1, 5))))
    } else if packet_type == PKT_TYPE_SEQUENCE_START {
        config_event(p.skip(EXT_BODY_OFFSET as int))
    } else if packet_type == PKT_TYPE_CODED_FRAMES {
        if p.len() < EXT_BODY_OFFSET + EXT_COMP_TIME_BYTES {
            Err(ParseError::Truncated)
        } else {
            frame_event(keyframe, p.skip(EXT_BODY_OFFSET + EXT_COMP_TIME_BYTES))
        }
    } else if packet_type == PKT_TYPE_CODED_FRAMES_X {
        frame_event(keyframe, p.skip(EXT_BODY_OFFSET as int))
    } else if packet_type == PKT_TYPE_SEQUENCE_END {
        Ok(VideoEventView::SequenceEnd)
    } else if packet_type == PKT_TYPE_METADATA {
        Ok(VideoEventView::Metadata)
    } else {
        Ok(VideoEventView::Ignored(IgnoreView::UnknownPacketType(packet_type)))
    }
}

/// The event of a video-tag body.
pub open spec fn video_event(p: Seq<u8>) -> Result<VideoEventView, ParseError> {
    if p.len() == 0 {
        Err(ParseError::Truncated)
    } else {
        match tag_kind(p[0]) {
            VideoTagKind::Standard => standard_event(p),
            VideoTagKind::Extended => extended_event(p),
        }
    }
}

/// Whether `r` is the outcome `expected`.
pub open spec fn is_outcome(
    r: Result<VideoTagEvent, ParseError>,
    expected: Result<VideoEventView, ParseError>,
) -> bool {
    match expected {
        Ok(event) => r matches Ok(e) && e@ == event,
        Err(error) => r == Err::<VideoTagEvent, ParseError>(error),
    }
}

/// Classifies the layout from the first byte.
pub fn video_tag_kind(first_byte: u8) -> (r: VideoTagKind)
    ensures
        r == tag_kind(first_byte),
{
    if first_byte >= 0x80 {
        VideoTagKind::Extended
    } else {
        VideoTagKind::Standard
    }
}

/// Reads the body of a video tag. Truncation anywhere, in the preamble or in the codec body, is
/// `ParseError::Truncated`; other codec failures are `ParseError::Codec`.
pub fn parse_video_tag(payload: &[u8]) -> (r: Result<VideoTagEvent, ParseError>)
    ensures
        is_outcome(r, video_event(payload@)),
{
    if payload.len() == 0 {
        return Err(ParseError::Truncated);
    }
    match video_tag_kind(payload[0]) {
        VideoTagKind::Standard => parse_standard_video_tag(payload),
        VideoTagKind::Extended => parse_extended_video_tag(payload),
    }
}

fn parse_standard_video_tag(payload: &[u8]) -> (r: Result<VideoTagEvent, ParseError>)
    requires
        payload@.len() > 0,
    ensures
        is_outcome(r, standard_event(payload@)),
{
    let frame_codec: u8 = payload[0];
    if payload.len() < 2 {
        return Err(ParseError::Truncated);
    }
    let codec_id: u8 = frame_codec % 16;
    if codec_id != STD_CODEC_ID_AVC {
        return Ok(VideoTagEvent::Ignored(IgnoreReason::NotAvcCodec(codec_id)));
    }
    let packet_type_byte: u8 = payload[1];
    let is_keyframe: bool = frame_codec / 16 == FRAME_TYPE_KEYFRAME;
    match AvcPacketType::from_byte(packet_type_byte) {
        Some(AvcPacketType::SeqHeader) => {
            if payload.len() < AVC_NALU_PREAMBLE_BYTES {
                return Err(ParseError::Truncated);
            }
            read_config(payload, AVC_NALU_PREAMBLE_BYTES)
        },
        Some(AvcPacketType::Nalu) => {
            if payload.len() < AVC_NALU_PREAMBLE_BYTES {
                return Err(ParseError::Truncated);
            }
            read_frame(payload, AVC_NALU_PREAMBLE_BYTES, is_keyframe)
        },
        Some(AvcPacketType::End) => Ok(VideoTagEvent::SequenceEnd),
        None => Ok(VideoTagEvent::Ignored(IgnoreReason::UnknownPacketType(packet_type_byte))),
    }
}

fn parse_extended_video_tag(payload: &[u8]) -> (r: Result<VideoTagEvent, ParseError>)
    requires
        payload@.len() > 0,
    ensures
        is_outcome(r, extended_event(payload@)),
{
    if payload.len() < EXT_BODY_OFFSET {
        return Err(ParseError::Truncated);
    }
    let header_byte: u8 = payload[0];
    let packet_type: u8 = header_byte % 16;
    let fourcc: [u8; 4] = [payload[1], payload[2], payload[3], payload[4]];
    assert(fourcc@ =~= payload@.subrange(1, 5));
    if !bytes_eq(fourcc.as_slice(), FOURCC_AVC1.as_slice()) {
        return Ok(VideoTagEvent::Ignored(IgnoreReason::NotAvcFourCC(fourcc)));
    }
    let is_keyframe: bool = (header_byte / 16) % 8 == FRAME_TYPE_KEYFRAME;
    if packet_type == PKT_TYPE_SEQUENCE_START {
        read_config(payload, EXT_BODY_OFFSET)
    } else if packet_type == PKT_TYPE_CODED_FRAMES {
        let comp_end: usize = EXT_BODY_OFFSET + EXT_COMP_TIME_BYTES;
        if payload.len() < comp_end {
            return Err(ParseError::Truncated);
        }
        read_frame(payload, comp_end, is_keyframe)
    } else if packet_type == PKT_TYPE_CODED_FRAMES_X {
        read_frame(payload, EXT_BODY_OFFSET, is_keyframe)
    } else if packet_type == PKT_TYPE_SEQUENCE_END {
        Ok(VideoTagEvent::SequenceEnd)
    } else if packet_type == PKT_TYPE_METADATA {
        Ok(VideoTagEvent::Metadata)
    } else {
        Ok(VideoTagEvent::Ignored(IgnoreReason::UnknownPacketType(packet_type)))
    }
}

/// Reads the configuration record at `from`.
fn read_config(payload: &[u8], from: usize) -> (r: Result<VideoTagEvent, ParseError>)
    requires
        from <= payload@.len(),
    ensures
        is_outcome(r, config_event(payload@.skip(from as int))),
{
    assert(payload@.subrange(from as int, payload@.len() as int) =~= payload@.skip(from as int));
    match parse_avc_config(slice_subrange(payload, from, payload.len())) {
        Ok(cfg) => Ok(VideoTagEvent::Config(cfg)),
        Err(e) => Err(lift_avc_err(e)),
    }
}

/// Reads the NAL unit stream at `from`.
fn read_frame(payload: &[u8], from: usize, is_keyframe: bool) -> (r: Result<
    VideoTagEvent,
    ParseError,
>)
    requires
        from <= payload@.len(),
    ensures
        is_outcome(r, frame_event(is_keyframe, payload@.skip(from as int))),
{
    assert(payload@.subrange(from as int, payload@.len() as int) =~= payload@.skip(from as int));
    match split_length_prefixed_nalus(slice_subrange(payload, from, payload.len())) {
        Ok(nalus) => Ok(VideoTagEvent::Frame(NaluFrame { is_keyframe, nalus })),
        Err(e) => Err(lift_avc_err(e)),
    }
}

fn lift_avc_err(err: AvcError) -> (r: ParseError)
    ensures
        r == lifted(err),
{
    match err {
        AvcError::Truncated => ParseError::Truncated,
        AvcError::BadConfigVersion(v) => ParseError::Codec(AvcError::BadConfigVersion(v)),
    }
}

/// The two layouts converge: a standard AVC tag and an extended tag with the same keyframe mark and
/// the same body give the same event, be it a NAL unit stream, with a composition time or without, a
/// configuration record or the end of a sequence.
pub proof fn law_layouts_converge(
    standard_first: u8,
    extended_first: u8,
    comp_time: Seq<u8>,
    body: Seq<u8>,
)
    requires
        standard_first < 0x80,
        standard_first % 16 == STD_CODEC_ID_AVC,
        extended_first >= 0x80,
        (standard_first / 16 == FRAME_TYPE_KEYFRAME) == ((extended_first / 16) % 8
            == FRAME_TYPE_KEYFRAME),
        comp_time.len() == 3,
    ensures
        extended_first % 16 == PKT_TYPE_CODED_FRAMES ==> video_event(seq![standard_first, 1] + comp_time + body)
            == video_event(seq![extended_first] + FOURCC_AVC1@ + comp_time + body),
        extended_first % 16 == PKT_TYPE_CODED_FRAMES_X ==> video_event(seq![standard_first, 1] + comp_time + body)
            == video_event(seq![extended_first] + FOURCC_AVC1@ + body),
        extended_first % 16 == PKT_TYPE_SEQUENCE_START ==> video_event(seq![standard_first, 0] + comp_time + body)
            == video_event(seq![extended_first] + FOURCC_AVC1@ + body),
        extended_first % 16 == PKT_TYPE_SEQUENCE_END ==> video_event(seq![standard_first, 2] + comp_time + body)
            == video_event(seq![extended_first] + FOURCC_AVC1@ + body),
{
    let x = seq![extended_first] + FOURCC_AVC1@ + comp_time + body;
    let y = seq![extended_first] + FOURCC_AVC1@ + body;
    assert((seq![standard_first, 0] + comp_time + body).skip(5) =~= body);
    assert((seq![standard_first, 1] + comp_time + body).skip(5) =~= body);
    assert(x.skip(8) =~= body);
    assert(y.skip(5) =~= body);
    assert(x.subrange(1, 5) =~= FOURCC_AVC1@);
    assert(y.subrange(1, 5) =~= FOURCC_AVC1@);
}

} // verus!
