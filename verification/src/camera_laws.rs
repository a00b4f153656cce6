//! Laws of the way from a camera's bytes into the hub.

use crate::amf::{has_metadata_preamble, law_only_metadata_tags_give_metadata, metadata_in, MetadataView};
use crate::avc::{join_nalus, law_split_undoes_join, AvcConfigView};
use crate::camera_listener::{fed, Dispatch, Notice, Progress};
use crate::flv_parser::{
    frame_run, law_standard_tag_is_framed, standard_tag, without_prefix, FlvParserView, FramerState, ParseError,
    TagView, FLV_SIGNATURE, UPFLV_PREFIX,
};
use crate::flv_video::{video_event, VideoEventView};
use crate::stream_state::{dropped_ids, FrameView};
use crate::text::{last_position, white_space};
use vstd::prelude::*;

verus! {

proof fn lemma_two_tags(d: Dispatch, a: TagView, b: TagView)
    ensures
        d.after_tags(seq![a, b]) == d.after_tag(a).after_tag(b),
{
    reveal_with_fuel(Dispatch::after_tags, 3);
    assert(seq![a, b].drop_last() =~= seq![a]);
    assert(seq![a].drop_last() =~= Seq::<TagView>::empty());
}

/// Metadata and the configuration record commute: after an `onMetaData` tag that declares a width, a
/// height and a rate, and a configuration record, in either order, the hub's codec has the declared
/// width as its width, the declared height as its height and the declared rate as its rate, and the
/// parameter sets and profile of the record. What the camera declared before that does not matter.
pub proof fn law_metadata_and_configuration_commute(
    d: Dispatch,
    script: Seq<u8>,
    script_ms: u32,
    video: Seq<u8>,
    video_ms: u32,
    meta: MetadataView,
    cfg: AvcConfigView,
)
    requires
        metadata_in(script) == Some(meta),
        meta.width is Some,
        meta.height is Some,
        meta.fps is Some,
        video_event(video) == Ok::<VideoEventView, ParseError>(VideoEventView::Config(cfg)),
    ensures
        ({
            let told = TagView::Script { timestamp_ms: script_ms, body: script };
            let record = TagView::Video { timestamp_ms: video_ms, body: video };
            let one = d.after_tags(seq![told, record]);
            let other = d.after_tags(seq![record, told]);
            &&& one == other
            &&& one.hub.codec matches Some(codec) && {
                &&& codec.width == meta.width
                &&& codec.height == meta.height
                &&& codec.fps == meta.fps
                &&& codec.sps == cfg.sps
                &&& codec.pps == cfg.pps
                &&& codec.profile_indication == cfg.profile_indication
                &&& codec.profile_compat == cfg.profile_compat
                &&& codec.level_indication == cfg.level_indication
            }
        }),
{
    let told = TagView::Script { timestamp_ms: script_ms, body: script };
    let record = TagView::Video { timestamp_ms: video_ms, body: video };
    law_only_metadata_tags_give_metadata(script);
    lemma_two_tags(d, told, record);
    lemma_two_tags(d, record, told);
    let one = d.after_tag(told).after_tag(record);
    let other = d.after_tag(record).after_tag(told);
    assert(one.hub.codec =~= other.hub.codec);
    assert(one =~= other);
}

/// Metadata changes of a codec only what it declares, and each declared value goes where it belongs:
/// an undeclared width, height or rate stays as it was. Frames, clients and counts are not touched.
pub proof fn law_metadata_changes_what_it_declares(d: Dispatch, script: Seq<u8>, ms: u32, meta: MetadataView)
    requires
        metadata_in(script) == Some(meta),
        d.hub.codec is Some,
    ensures
        ({
            let after = d.after_tag(TagView::Script { timestamp_ms: ms, body: script });
            let codec = d.hub.codec->0;
            let new = after.hub.codec->0;
            &&& after.hub.codec is Some
            &&& new.width == (if meta.width is Some { meta.width } else { codec.width })
            &&& new.height == (if meta.height is Some { meta.height } else { codec.height })
            &&& new.fps == (if meta.fps is Some { meta.fps } else { codec.fps })
            &&& new.sps == codec.sps
            &&& new.pps == codec.pps
            &&& new.profile_indication == codec.profile_indication
            &&& new.profile_compat == codec.profile_compat
            &&& new.level_indication == codec.level_indication
            &&& after.hub.channels == d.hub.channels
            &&& after.hub.last_keyframe == d.hub.last_keyframe
            &&& after.hub.next_client_id == d.hub.next_client_id
            &&& after.keyframes == d.keyframes
            &&& after.interframes == d.interframes
            &&& after.notices == d.notices
        }),
{
    law_only_metadata_tags_give_metadata(script);
}

/// A stream name names the camera: what stands before its last `_`, or all of it where there is
/// none, becomes the serial number. Without a stream name the hub keeps the identity that it has.
pub proof fn law_stream_name_names_the_camera(
    d: Dispatch,
    script: Seq<u8>,
    ms: u32,
    meta: MetadataView,
    serial: Seq<char>,
    index: Seq<char>,
)
    requires
        metadata_in(script) == Some(meta),
        serial.len() > 0,
        !white_space(serial[0]),
        !white_space(serial.last()),
        !index.contains('_'),
        index.len() > 0 ==> !white_space(index.last()),
    ensures
        ({
            let after = d.after_tag(TagView::Script { timestamp_ms: ms, body: script });
            &&& meta.stream_name == Some(serial + seq!['_'] + index) ==> (after.hub.camera_identity matches Some(id)
                && id.serial == serial && id.model.len() == 0)
            &&& meta.stream_name == Some(serial) && !serial.contains('_') ==> (
            after.hub.camera_identity matches Some(id) && id.serial == serial && id.model.len() == 0)
            &&& meta.stream_name is None ==> after.hub.camera_identity == d.hub.camera_identity
        }),
{
    law_only_metadata_tags_give_metadata(script);
    let name = serial + seq!['_'] + index;
    assert(name[0] == serial[0]);
    assert(name.last() == (if index.len() > 0 { index.last() } else { '_' }));
    lemma_last_position(serial + seq!['_'], index);
    assert((serial + seq!['_']).last() == '_');
    assert(name.take(serial.len() as int) =~= serial);
    if !serial.contains('_') {
        lemma_last_position(Seq::empty(), serial);
        assert(Seq::<char>::empty() + serial =~= serial);
    }
}

/// Characters that are not `_` do not move where the last `_` stands.
proof fn lemma_last_position(s: Seq<char>, more: Seq<char>)
    requires
        !more.contains('_'),
    ensures
        last_position(s + more, '_') == last_position(s, '_'),
    decreases more.len(),
{
    if more.len() == 0 {
        assert(s + more =~= s);
    } else {
        assert((s + more).drop_last() =~= s + more.drop_last());
        assert(more[more.len() - 1] == more.last());
        assert forall|i: int| 0 <= i < more.drop_last().len() implies more.drop_last()[i] != '_' by {
            assert(more[i] == more.drop_last()[i]);
        }
        lemma_last_position(s, more.drop_last());
    }
}

/// A tag with a NAL unit stream publishes one frame, with the tag's timestamp and the units in their
/// order. It is a keyframe iff the tag's frame type is 1; the count of its kind goes up by one. The
/// codec, the camera's identity and the metadata stay.
pub proof fn law_video_tag_publishes_its_units(
    d: Dispatch,
    ms: u32,
    frame_type: u8,
    comp_time: Seq<u8>,
    units: Seq<Seq<u8>>,
)
    requires
        frame_type < 8,
        comp_time.len() == 3,
        forall|i: int| 0 <= i < units.len() ==> 0 < (#[trigger] units[i]).len() <= u32::MAX,
        d.keyframes < u64::MAX,
        d.interframes < u64::MAX,
    ensures
        ({
            let body = seq![(16 * frame_type + 7) as u8, 1] + comp_time + join_nalus(units);
            let after = d.after_tag(TagView::Video { timestamp_ms: ms, body });
            let frame = FrameView { is_keyframe: frame_type == 1, timestamp_ms: ms, nalus: units };
            &&& after.hub == d.hub.with_frame(frame)
            &&& after.keyframes == d.keyframes + (if frame_type == 1 { 1int } else { 0 })
            &&& after.interframes == d.interframes + (if frame_type == 1 { 0int } else { 1 })
            &&& after.pending == d.pending
        }),
{
    let body = seq![(16 * frame_type + 7) as u8, 1] + comp_time + join_nalus(units);
    law_split_undoes_join(units);
    assert(body.skip(5) =~= join_nalus(units));
    assert(body[0] == 16 * frame_type + 7);
    assert(body[1] == 1);
}

/// A tag that is neither video nor metadata changes nothing; nor does a video tag that ends too
/// early. One that cannot be read for another reason leaves a notice and nothing else.
pub proof fn law_other_tags_change_nothing(d: Dispatch, ms: u32, tag_type: u8, body: Seq<u8>)
    ensures
        d.after_tag(TagView::Audio { timestamp_ms: ms, body }) == d,
        d.after_tag(TagView::Unknown { tag_type, timestamp_ms: ms, body }) == d,
        !has_metadata_preamble(body) ==> d.after_tag(TagView::Script { timestamp_ms: ms, body }) == d,
        body.len() < 2 ==> d.after_tag(TagView::Video { timestamp_ms: ms, body }) == d,
        video_event(body) matches Err(e) ==> {
            let after = d.after_tag(TagView::Video { timestamp_ms: ms, body });
            &&& after.hub == d.hub
            &&& after.pending == d.pending
            &&& after.keyframes == d.keyframes
            &&& after.interframes == d.interframes
            &&& after.notices == if e == ParseError::Truncated {
                d.notices
            } else {
                d.notices.push(Notice::VideoTag(e))
            }
        },
{
}

/// A tag that a new connection brings behind an FLV header reaches the hub as what its type says:
/// 9 as video, 18 as script data, 8 as sound; with its timestamp and its body. It makes no difference
/// whether the cameras' own prefix stands in front.
pub proof fn law_tag_reaches_the_hub(
    d: Dispatch,
    prefixed: bool,
    flags: u8,
    prev_size: Seq<u8>,
    tag_type: u8,
    ms: u32,
    stream_id: Seq<u8>,
    body: Seq<u8>,
)
    requires
        prev_size.len() == 4,
        stream_id.len() == 3,
        tag_type == 8 || tag_type == 9 || tag_type == 18,
        body.len() <= 8 * 1024 * 1024,
    ensures
        ({
            let start = Progress { buf: Seq::empty(), prefix_checked: false, parser: None };
            let header = seq![0x46u8, 0x4C, 0x56, 1, flags, 0, 0, 0, 9];
            let bytes = (if prefixed { UPFLV_PREFIX@ } else { Seq::empty() }) + header + standard_tag(
                prev_size,
                tag_type,
                ms,
                stream_id,
                body,
            );
            let tag = if tag_type == 9 {
                TagView::Video { timestamp_ms: ms, body }
            } else if tag_type == 18 {
                TagView::Script { timestamp_ms: ms, body }
            } else {
                TagView::Audio { timestamp_ms: ms, body }
            };
            let (progress, after, given_up) = fed(start, d, bytes);
            &&& !given_up
            &&& after == d.after_tag(tag)
            &&& progress.parser matches Some(p) && p.state == FramerState::PrevTagSize && p.buf.len() == 0
        }),
{
    let header = seq![0x46u8, 0x4C, 0x56, 1, flags, 0, 0, 0, 9];
    let tag_bytes = standard_tag(prev_size, tag_type, ms, stream_id, body);
    let rest = header + tag_bytes;
    let prefix = if prefixed { UPFLV_PREFIX@ } else { Seq::empty() };
    let bytes = prefix + header + tag_bytes;
    assert(Seq::<u8>::empty() + bytes =~= bytes);
    assert(without_prefix(bytes) =~= rest) by {
        if prefixed {
            assert(UPFLV_PREFIX@ =~= bytes.subrange(0, 11));
        } else {
            if UPFLV_PREFIX@.is_prefix_of(bytes) {
                assert(UPFLV_PREFIX@[0] == bytes[0]);
            }
            assert(bytes =~= rest);
        }
    }
    assert(rest.subrange(0, 3) =~= FLV_SIGNATURE@);
    assert(rest.skip(9) =~= tag_bytes);
    assert(Seq::<u8>::empty() + tag_bytes =~= tag_bytes);
    assert(tag_bytes + Seq::<u8>::empty() =~= tag_bytes);
    law_standard_tag_is_framed(prev_size, tag_type, ms, stream_id, body, Seq::empty());
    let tags = frame_run(FramerState::PrevTagSize, tag_bytes).events;
    assert(tags.len() == 1);
    reveal_with_fuel(Dispatch::after_tags, 2);
    assert(tags.drop_last() =~= Seq::<TagView>::empty());
}

/// On a stream that has declared nothing before, the order does not matter even where metadata leaves
/// something out: what it declares is told, and what it does not is not known.
pub proof fn law_first_declaration_counts_in_either_order(
    d: Dispatch,
    script: Seq<u8>,
    script_ms: u32,
    video: Seq<u8>,
    video_ms: u32,
    meta: MetadataView,
    cfg: AvcConfigView,
)
    requires
        d.pending is None,
        metadata_in(script) == Some(meta),
        video_event(video) == Ok::<VideoEventView, ParseError>(VideoEventView::Config(cfg)),
    ensures
        ({
            let told = TagView::Script { timestamp_ms: script_ms, body: script };
            let record = TagView::Video { timestamp_ms: video_ms, body: video };
            let one = d.after_tag(told).after_tag(record).hub.codec;
            let other = d.after_tag(record).after_tag(told).hub.codec;
            let alone = d.after_tag(record).hub.codec;
            &&& one is Some && other == one
            &&& one->0.width == meta.width && one->0.height == meta.height && one->0.fps == meta.fps
            &&& alone is Some && alone->0.width is None && alone->0.height is None && alone->0.fps is None
        }),
{
    law_only_metadata_tags_give_metadata(script);
    let told = TagView::Script { timestamp_ms: script_ms, body: script };
    let record = TagView::Video { timestamp_ms: video_ms, body: video };
    let one = d.after_tag(told).after_tag(record).hub.codec->0;
    let other = d.after_tag(record).after_tag(told).hub.codec->0;
    assert(one =~= other);
}

/// A later configuration record replaces the parameter sets, and keeps what the last metadata declared.
pub proof fn law_later_record_keeps_what_was_declared(
    d: Dispatch,
    script: Seq<u8>,
    script_ms: u32,
    video: Seq<u8>,
    video_ms: u32,
    meta: MetadataView,
    cfg: AvcConfigView,
)
    requires
        metadata_in(script) == Some(meta),
        video_event(video) == Ok::<VideoEventView, ParseError>(VideoEventView::Config(cfg)),
    ensures
        ({
            let told = TagView::Script { timestamp_ms: script_ms, body: script };
            let record = TagView::Video { timestamp_ms: video_ms, body: video };
            let after = d.after_tag(told).after_tag(record);
            let codec = after.hub.codec->0;
            &&& after.hub.codec is Some
            &&& codec.sps == cfg.sps && codec.pps == cfg.pps
            &&& codec.width == meta.width && codec.height == meta.height && codec.fps == meta.fps
            &&& after.hub.camera_identity == d.after_tag(told).hub.camera_identity
            &&& after.hub.channels == d.hub.channels && after.hub.last_keyframe == d.hub.last_keyframe
            &&& after.keyframes == d.keyframes && after.interframes == d.interframes && after.notices == d.notices
        }),
{
    law_only_metadata_tags_give_metadata(script);
}

/// Each client that a frame lets go is reported, in the order of the hub, and nobody else.
pub proof fn law_dropped_clients_are_reported(d: Dispatch, ms: u32, body: Seq<u8>, i: int)
    requires
        video_event(body) matches Ok(VideoEventView::Frame { .. }),
    ensures
        ({
            let after = d.after_tag(TagView::Video { timestamp_ms: ms, body });
            let dropped = dropped_ids(d.hub.channels);
            &&& after.notices.len() == d.notices.len() + dropped.len()
            &&& after.notices.take(d.notices.len() as int) == d.notices
            &&& 0 <= i < dropped.len() ==> after.notices[d.notices.len() + i] == Notice::ClientDropped(dropped[i])
        }),
{
    let after = d.after_tag(TagView::Video { timestamp_ms: ms, body });
    assert(after.notices.take(d.notices.len() as int) =~= d.notices);
}

/// A connection that does not begin as a stream is given up with the reason, and nothing of it reaches the
/// hub; one that has not sent a whole header is waited for.
pub proof fn law_other_connections_are_given_up(d: Dispatch, bytes: Seq<u8>)
    requires
        bytes.len() < 11 || bytes.take(11) != UPFLV_PREFIX@,
    ensures
        ({
            let start = Progress { buf: Seq::empty(), prefix_checked: false, parser: None };
            let (progress, after, given_up) = fed(start, d, bytes);
            let signed = bytes.len() >= 3 && bytes.take(3) == seq![0x46u8, 0x4C, 0x56];
            &&& !signed ==> after.hub == d.hub && after.pending == d.pending
            &&& bytes.len() < 11 ==> !given_up && after == d && progress.buf == bytes && progress.parser is None
            &&& bytes.len() >= 11 && !signed ==> given_up && after.notices == d.notices.push(
                Notice::Header(ParseError::BadSignature),
            )
            &&& bytes.len() >= 11 && signed && bytes[3] != 1 ==> given_up && after == (Dispatch {
                notices: d.notices.push(Notice::Header(ParseError::UnsupportedVersion)),
                ..d
            })
            &&& bytes.len() >= 11 && signed && bytes[3] == 1 ==> !given_up
        }),
{
    let start = Progress { buf: Seq::empty(), prefix_checked: false, parser: None };
    assert(start.buf + bytes =~= bytes);
    assert(FLV_SIGNATURE@ =~= seq![0x46u8, 0x4C, 0x56]);
    if bytes.len() >= 11 {
        if UPFLV_PREFIX@.is_prefix_of(bytes) {
            assert(bytes.take(11) =~= UPFLV_PREFIX@);
        }
        assert(bytes.subrange(0, 3) =~= bytes.take(3));
    }
}

/// A stream that gets out of step is reported with the reason; of what came with that, nothing reaches the
/// hub.
pub proof fn law_stream_out_of_step_is_reported(d: Dispatch, p: Progress, parser: FlvParserView, chunk: Seq<u8>)
    requires
        p.parser == Some(parser),
    ensures
        ({
            let (progress, after, given_up) = fed(p, d, chunk);
            let run = frame_run(parser.state, parser.buf + chunk);
            &&& !given_up
            &&& run.error matches Some(e) ==> after == (Dispatch { notices: d.notices.push(Notice::Framing(e)), ..d })
            &&& run.error is None && run.events.len() == 0 ==> after == d
            &&& progress.parser == Some(FlvParserView { state: run.state, buf: run.rest })
        }),
{
}

} // verus!
