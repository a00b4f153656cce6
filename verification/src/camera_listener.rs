//! The way of a camera's bytes into the hub: prefix, FLV header, tags, and from the tags codec
//! parameters, metadata and frames. The pipeline takes the bytes as they come; where the connection
//! cuts them makes no difference.

use crate::amf::{
    has_metadata_preamble, is_metadata_tag, metadata_in, parse_on_metadata, MetadataView, StreamMetadata,
};
use crate::avc::{AvcConfigView, AvcDecoderConfig};
use crate::bytes::{append_bytes, copy_range};
use crate::camera_identity::{from_metadata, identity_in};
use crate::flv_parser::{
    detect_and_strip_prefix, flv_header, frame_run, fresh_framer, law_cuts_do_not_matter, parse_header,
    tag_views, without_prefix, FlvParser, FlvParserView, ParseError, TagEvent, TagView, UPFLV_PREFIX,
};
use crate::flv_video::{parse_video_tag, video_event, VideoEventView, VideoTagEvent};
use crate::ieee754::Binary32;
use crate::stream_state::{
    dropped_ids, ClientId, CodecParams, CodecView, Frame, FrameView, HubView, StreamState,
};
use vstd::prelude::*;
use vstd::slice::slice_to_vec;

verus! {

/// What is worth a line in the log.
#[derive(Debug, Clone, Copy, PartialEq, Eq, Structural)]
pub enum Notice {
    /// The stream does not begin as FLV does; the connection is given up.
    Header(ParseError),
    /// The framer was out of step and has started over.
    Framing(ParseError),
    /// A video tag could not be read and was passed over.
    VideoTag(ParseError),
    /// A client was too slow, or had left, and was let go.
    ClientDropped(ClientId),
}

/// `prior` where metadata has nothing to say.
pub open spec fn or_prior<T>(declared: Option<T>, prior: Option<T>) -> Option<T> {
    match declared {
        Some(v) => Some(v),
        None => prior,
    }
}

/// The codec parameters of a configuration record, with the size and rate that metadata declared.
pub open spec fn codec_from(cfg: AvcConfigView, pending: Option<MetadataView>) -> CodecView {
    CodecView {
        sps: cfg.sps,
        pps: cfg.pps,
        profile_indication: cfg.profile_indication,
        profile_compat: cfg.profile_compat,
        level_indication: cfg.level_indication,
        width: match pending {
            Some(m) => m.width,
            None => None,
        },
        height: match pending {
            Some(m) => m.height,
            None => None,
        },
        fps: match pending {
            Some(m) => m.fps,
            None => None,
        },
    }
}

/// Codec parameters with what metadata declares in place of what they had.
pub open spec fn merged(codec: CodecView, meta: MetadataView) -> CodecView {
    CodecView {
        width: or_prior(meta.width, codec.width),
        height: or_prior(meta.height, codec.height),
        fps: or_prior(meta.fps, codec.fps),
        ..codec
    }
}

/// Counts up to the largest number and no further.
pub open spec fn counted(n: u64) -> u64 {
    if n == u64::MAX {
        n
    } else {
        (n + 1) as u64
    }
}

/// What tags work on: the hub, the metadata seen last, counts of frames, and the log.
#[verifier::ext_equal]
pub struct Dispatch {
    pub hub: HubView,
    pub pending: Option<MetadataView>,
    pub keyframes: u64,
    pub interframes: u64,
    pub notices: Seq<Notice>,
}

/// The notices for clients that were let go.
pub open spec fn drop_notices(ids: Seq<ClientId>) -> Seq<Notice> {
    ids.map_values(|id: ClientId| Notice::ClientDropped(id))
}

impl Dispatch {
    /// After the body of a video tag.
    pub open spec fn after_video(self, timestamp_ms: u32, body: Seq<u8>) -> Dispatch {
        match video_event(body) {
            Ok(VideoEventView::Config(cfg)) => Dispatch {
                hub: HubView { codec: Some(codec_from(cfg, self.pending)), ..self.hub },
                ..self
            },
            Ok(VideoEventView::Frame { is_keyframe, nalus }) => Dispatch {
                hub: self.hub.with_frame(FrameView { is_keyframe, timestamp_ms, nalus }),
                pending: self.pending,
                keyframes: if is_keyframe {
                    counted(self.keyframes)
                } else {
                    self.keyframes
                },
                interframes: if is_keyframe {
                    self.interframes
                } else {
                    counted(self.interframes)
                },
                notices: self.notices + drop_notices(dropped_ids(self.hub.channels)),
            },
            Ok(_) => self,
            Err(ParseError::Truncated) => self,
            Err(e) => Dispatch { notices: self.notices.push(Notice::VideoTag(e)), ..self },
        }
    }

    /// After metadata.
    pub open spec fn after_metadata(self, meta: MetadataView) -> Dispatch {
        Dispatch {
            hub: HubView {
                camera_identity: or_prior(identity_in(meta), self.hub.camera_identity),
                codec: match self.hub.codec {
                    Some(c) => Some(merged(c, meta)),
                    None => None,
                },
                ..self.hub
            },
            pending: Some(meta),
            ..self
        }
    }

    /// After a tag.
    pub open spec fn after_tag(self, tag: TagView) -> Dispatch {
        match tag {
            TagView::Video { timestamp_ms, body } => self.after_video(timestamp_ms, body),
            TagView::Script { timestamp_ms, body } => if has_metadata_preamble(body) {
                match metadata_in(body) {
                    Some(meta) => self.after_metadata(meta),
                    None => self,
                }
            } else {
                self
            },
            _ => self,
        }
    }

    /// After tags, one after the other.
    pub open spec fn after_tags(self, tags: Seq<TagView>) -> Dispatch
        decreases tags.len(),
    {
        if tags.len() == 0 {
            self
        } else {
            self.after_tags(tags.drop_last()).after_tag(tags.last())
        }
    }
}

/// A camera's connection, on its way into the hub.
pub struct CameraPipeline {
    buf: Vec<u8>,
    prefix_checked: bool,
    parser: Option<FlvParser>,
    pending_metadata: Option<StreamMetadata>,
    keyframes: u64,
    interframes: u64,
}

/// How far the bytes have been read.
#[verifier::ext_equal]
pub struct Progress {
    /// Bytes before the tags, not yet read.
    pub buf: Seq<u8>,
    pub prefix_checked: bool,
    /// The framer, once the header has been read.
    pub parser: Option<FlvParserView>,
}

impl CameraPipeline {
    /// How far the bytes have been read.
    pub closed spec fn progress(self) -> Progress {
        Progress {
            buf: self.buf@,
            prefix_checked: self.prefix_checked,
            parser: match self.parser {
                Some(p) => Some(p@),
                None => None,
            },
        }
    }

    /// The metadata seen last.
    pub closed spec fn pending(self) -> Option<MetadataView> {
        match self.pending_metadata {
            Some(m) => Some(m@),
            None => None,
        }
    }

    pub closed spec fn keyframe_count(self) -> u64 {
        self.keyframes
    }

    pub closed spec fn interframe_count(self) -> u64 {
        self.interframes
    }

    /// What tags work on.
    pub open spec fn dispatch(self, hub: HubView, notices: Seq<Notice>) -> Dispatch {
        Dispatch {
            hub,
            pending: self.pending(),
            keyframes: self.keyframe_count(),
            interframes: self.interframe_count(),
            notices,
        }
    }
}

/// After a run of the framer: its tags, or the notice that it was out of step.
pub open spec fn after_run(d: Dispatch, parser: FlvParserView, chunk: Seq<u8>) -> Dispatch {
    let run = frame_run(parser.state, parser.buf + chunk);
    match run.error {
        None => d.after_tags(run.events),
        Some(e) => Dispatch { notices: d.notices.push(Notice::Framing(e)), ..d },
    }
}

/// The framer after bytes.
pub open spec fn framer_after(parser: FlvParserView, chunk: Seq<u8>) -> FlvParserView {
    let run = frame_run(parser.state, parser.buf + chunk);
    FlvParserView { state: run.state, buf: run.rest }
}

/// Where bytes before the tags stand: not enough of them, something that is no FLV, or a header and
/// what follows it.
pub enum Opening {
    Wait { buf: Seq<u8>, prefix_checked: bool },
    Bad(ParseError),
    Tags(Seq<u8>),
}

/// Reads the prefix and the header at the head of `s`.
pub open spec fn opening(s: Seq<u8>, prefix_checked: bool) -> Opening {
    if !prefix_checked && s.len() < 11 {
        Opening::Wait { buf: s, prefix_checked: false }
    } else {
        let rest = if prefix_checked {
            s
        } else {
            without_prefix(s)
        };
        match flv_header(rest) {
            Err(ParseError::Truncated) => Opening::Wait { buf: rest, prefix_checked: true },
            Err(e) => Opening::Bad(e),
            Ok((_, end)) => Opening::Tags(rest.skip(end)),
        }
    }
}

/// What a chunk leads to: progress, what the tags did, and whether the connection is given up.
pub open spec fn fed(p: Progress, d: Dispatch, chunk: Seq<u8>) -> (Progress, Dispatch, bool) {
    match p.parser {
        Some(parser) => (
            Progress { parser: Some(framer_after(parser, chunk)), ..p },
            after_run(d, parser, chunk),
            false,
        ),
        None => match opening(p.buf + chunk, p.prefix_checked) {
            Opening::Wait { buf, prefix_checked } => (
                Progress { buf, prefix_checked, parser: None },
                d,
                false,
            ),
            Opening::Bad(e) => (
                Progress { buf: p.buf + chunk, ..p },
                Dispatch { notices: d.notices.push(Notice::Header(e)), ..d },
                true,
            ),
            Opening::Tags(rest) => (
                Progress {
                    buf: Seq::empty(),
                    prefix_checked: true,
                    parser: Some(framer_after(fresh_framer(), rest)),
                },
                after_run(d, fresh_framer(), rest),
                false,
            ),
        },
    }
}

/// The codec parameters of a configuration record.
fn build_codec_params(cfg: &AvcDecoderConfig, pending: &Option<StreamMetadata>) -> (r: CodecParams)
    ensures
        r@ == codec_from(
            cfg@,
            match *pending {
                Some(m) => Some(m@),
                None => None,
            },
        ),
{
    let (width, height, fps): (Option<u32>, Option<u32>, Option<Binary32>) = match pending {
        Some(m) => (m.width, m.height, m.fps),
        None => (None, None, None),
    };
    let sps = copy_range(cfg.sps.as_slice(), 0, cfg.sps.len());
    let pps = copy_range(cfg.pps.as_slice(), 0, cfg.pps.len());
    assert(sps@ =~= cfg.sps@);
    assert(pps@ =~= cfg.pps@);
    CodecParams {
        sps,
        pps,
        profile_indication: cfg.profile_indication,
        profile_compat: cfg.profile_compat,
        level_indication: cfg.level_indication,
        width,
        height,
        fps,
    }
}

/// Puts what metadata declares into codec parameters.
fn merge_metadata_into_codec(codec: CodecParams, meta: &StreamMetadata) -> (r: CodecParams)
    ensures
        r@ == merged(codec@, meta@),
{
    let mut out = codec;
    if meta.width.is_some() {
        out.width = meta.width;
    }
    if meta.height.is_some() {
        out.height = meta.height;
    }
    if meta.fps.is_some() {
        out.fps = meta.fps;
    }
    out
}

/// One more, up to the largest number.
fn count_up(n: u64) -> (r: u64)
    ensures
        r == counted(n),
{
    if n == u64::MAX {
        n
    } else {
        n + 1
    }
}

impl CameraPipeline {
    /// A connection that has brought nothing yet.
    pub fn new() -> (r: CameraPipeline)
        ensures
            r.progress() == (Progress { buf: Seq::empty(), prefix_checked: false, parser: None }),
            r.pending() is None,
            r.keyframe_count() == 0,
            r.interframe_count() == 0,
    {
        let r = CameraPipeline {
            buf: Vec::new(),
            prefix_checked: false,
            parser: None,
            pending_metadata: None,
            keyframes: 0,
            interframes: 0,
        };
        assert(r.progress().buf =~= Seq::empty());
        r
    }

    /// How many keyframes have come.
    pub fn keyframes(&self) -> (r: u64)
        ensures
            r == self.keyframe_count(),
    {
        self.keyframes
    }

    /// How many other frames have come.
    pub fn interframes(&self) -> (r: u64)
        ensures
            r == self.interframe_count(),
    {
        self.interframes
    }

    /// Brings metadata into the hub, and keeps it for the next configuration record.
    fn apply_metadata(&mut self, hub: &mut StreamState, meta: StreamMetadata)
        ensures
            final(self).progress() == old(self).progress(),
            forall|notices: Seq<Notice>| #[trigger]
                final(self).dispatch(final(hub)@, notices) == old(self).dispatch(
                    old(hub)@,
                    notices,
                ).after_metadata(meta@),
    {
        match from_metadata(&meta) {
            Some(identity) => {
                hub.publish_camera_identity(identity);
            },
            None => {},
        }
        match hub.codec() {
            Some(codec) => {
                hub.publish_config(merge_metadata_into_codec(codec, &meta));
            },
            None => {},
        }
        self.pending_metadata = Some(meta);
        assert(hub@ =~= HubView {
            camera_identity: or_prior(identity_in(meta@), old(hub)@.camera_identity),
            codec: match old(hub)@.codec {
                Some(c) => Some(merged(c, meta@)),
                None => None,
            },
            ..old(hub)@
        });
    }

    /// Brings the body of a video tag into the hub.
    fn dispatch_video(&mut self, body: &[u8], timestamp_ms: u32, hub: &mut StreamState, notices: &mut Vec<Notice>)
        ensures
            final(self).progress() == old(self).progress(),
            final(self).dispatch(final(hub)@, final(notices)@) == old(self).dispatch(
                old(hub)@,
                old(notices)@,
            ).after_video(timestamp_ms, body@),
    {
        let ghost before = self.dispatch(hub@, notices@);
        match parse_video_tag(body) {
            Ok(VideoTagEvent::Config(cfg)) => {
                let params = build_codec_params(&cfg, &self.pending_metadata);
                hub.publish_config(params);
            },
            Ok(VideoTagEvent::Frame(nalu_frame)) => {
                let is_keyframe = nalu_frame.is_keyframe;
                let frame = Frame { is_keyframe, timestamp_ms, nalus: nalu_frame.nalus };
                let outcome = hub.publish_frame(frame);
                if is_keyframe {
                    self.keyframes = count_up(self.keyframes);
                } else {
                    self.interframes = count_up(self.interframes);
                }
                let ghost ids = outcome.dropped_client_ids@;
                let mut i: usize = 0;
                assert(notices@ =~= before.notices + drop_notices(ids.take(0)));
                while i < outcome.dropped_client_ids.len()
                    invariant
                        i <= ids.len(),
                        ids == outcome.dropped_client_ids@,
                        notices@ == before.notices + drop_notices(ids.take(i as int)),
                    decreases ids.len() - i,
                {
                    notices.push(Notice::ClientDropped(outcome.dropped_client_ids[i]));
                    i += 1;
                    assert(notices@ =~= before.notices + drop_notices(ids.take(i as int)));
                }
                assert(ids.take(ids.len() as int) =~= ids);
            },
            Ok(VideoTagEvent::SequenceEnd) | Ok(VideoTagEvent::Metadata) | Ok(VideoTagEvent::Ignored(_)) => {},
            Err(ParseError::Truncated) => {},
            Err(e) => {
                notices.push(Notice::VideoTag(e));
            },
        }
        assert(self.dispatch(hub@, notices@) =~= before.after_video(timestamp_ms, body@));
    }

    /// Brings tags into the hub, one after the other.
    fn dispatch_events(&mut self, events: Vec<TagEvent>, hub: &mut StreamState, notices: &mut Vec<Notice>)
        ensures
            final(self).progress() == old(self).progress(),
            final(self).dispatch(final(hub)@, final(notices)@) == old(self).dispatch(
                old(hub)@,
                old(notices)@,
            ).after_tags(tag_views(events@)),
    {
        let ghost before = self.dispatch(hub@, notices@);
        let ghost tags = tag_views(events@);
        let mut i: usize = 0;
        assert(tags.take(0) =~= Seq::empty());
        while i < events.len()
            invariant
                i <= events@.len(),
                tags == tag_views(events@),
                self.progress() == old(self).progress(),
                before == old(self).dispatch(old(hub)@, old(notices)@),
                self.dispatch(hub@, notices@) == before.after_tags(tags.take(i as int)),
            decreases events@.len() - i,
        {
            proof {
                assert(tags.take(i + 1).drop_last() =~= tags.take(i as int));
                assert(tags.take(i + 1).last() == events@[i as int]@);
            }
            match &events[i] {
                TagEvent::Video { timestamp_ms, body } => {
                    self.dispatch_video(body.as_slice(), *timestamp_ms, hub, notices);
                },
                TagEvent::Script { timestamp_ms, body } => {
                    if is_metadata_tag(body.as_slice()) {
                        match parse_on_metadata(body.as_slice()) {
                            Some(meta) => {
                                self.apply_metadata(hub, meta);
                            },
                            None => {},
                        }
                    }
                },
                _ => {},
            }
            i += 1;
        }
        assert(tags.take(tags.len() as int) =~= tags);
    }

    /// Runs a framer over bytes and brings its tags into the hub.
    fn run_framer(
        &mut self,
        parser: &mut FlvParser,
        chunk: &[u8],
        hub: &mut StreamState,
        notices: &mut Vec<Notice>,
    )
        ensures
            final(self).progress() == old(self).progress(),
            final(parser)@ == framer_after(old(parser)@, chunk@),
            final(self).dispatch(final(hub)@, final(notices)@) == after_run(
                old(self).dispatch(old(hub)@, old(notices)@),
                old(parser)@,
                chunk@,
            ),
    {
        match parser.push(chunk) {
            Ok(events) => {
                self.dispatch_events(events, hub, notices);
            },
            Err(e) => {
                notices.push(Notice::Framing(e));
            },
        }
    }

    /// Takes the next bytes of the connection and brings what they complete into the hub. `true`
    /// means that the connection is given up, because the stream is no FLV.
    pub fn feed(&mut self, chunk: &[u8], hub: &mut StreamState, notices: &mut Vec<Notice>) -> (r: bool)
        ensures
            (final(self).progress(), final(self).dispatch(final(hub)@, final(notices)@), r) == fed(
                old(self).progress(),
                old(self).dispatch(old(hub)@, old(notices)@),
                chunk@,
            ),
    {
        match self.parser.take() {
            Some(framer) => {
                let mut parser = framer;
                self.run_framer(&mut parser, chunk, hub, notices);
                self.parser = Some(parser);
                return false;
            },
            None => {},
        }
        append_bytes(&mut self.buf, chunk);
        if !self.prefix_checked && self.buf.len() < 11 {
            return false;
        }
        let rest: Vec<u8> = if self.prefix_checked {
            slice_to_vec(self.buf.as_slice())
        } else {
            slice_to_vec(detect_and_strip_prefix(self.buf.as_slice()))
        };
        let header = parse_header(rest.as_slice());
        match header {
            Err(ParseError::Truncated) => {
                self.buf = rest;
                self.prefix_checked = true;
                false
            },
            Err(e) => {
                notices.push(Notice::Header(e));
                true
            },
            Ok((tags, _)) => {
                let mut parser = FlvParser::new();
                self.buf = Vec::new();
                self.prefix_checked = true;
                self.run_framer(&mut parser, tags, hub, notices);
                self.parser = Some(parser);
                assert(self.progress().buf =~= Seq::empty());
                false
            },
        }
    }
}

/// Whether the framer stays in step with the stream over these bytes.
pub open spec fn is_in_step(p: Progress, chunk: Seq<u8>) -> bool {
    match p.parser {
        Some(parser) => frame_run(parser.state, parser.buf + chunk).error is None,
        None => match opening(p.buf + chunk, p.prefix_checked) {
            Opening::Tags(rest) => frame_run(fresh_framer().state, fresh_framer().buf + rest).error is None,
            _ => true,
        },
    }
}

proof fn lemma_tags_append(d: Dispatch, a: Seq<TagView>, b: Seq<TagView>)
    ensures
        d.after_tags(a + b) == d.after_tags(a).after_tags(b),
    decreases b.len(),
{
    if b.len() == 0 {
        assert(a + b =~= a);
    } else {
        lemma_tags_append(d, a, b.drop_last());
        assert((a + b).drop_last() =~= a + b.drop_last());
        assert((a + b).last() == b.last());
    }
}

/// A framer gives the same for bytes in two pieces as for all of them.
proof fn lemma_run_in_pieces(d: Dispatch, parser: FlvParserView, a: Seq<u8>, b: Seq<u8>)
    requires
        frame_run(parser.state, parser.buf + a).error is None,
        frame_run(parser.state, parser.buf + (a + b)).error is None,
    ensures
        framer_after(framer_after(parser, a), b) == framer_after(parser, a + b),
        after_run(after_run(d, parser, a), framer_after(parser, a), b) == after_run(d, parser, a + b),
{
    law_cuts_do_not_matter(parser.state, parser.buf + a, b);
    assert(parser.buf + (a + b) =~= (parser.buf + a) + b);
    let one = frame_run(parser.state, parser.buf + a);
    let two = frame_run(one.state, one.rest + b);
    lemma_tags_append(d, one.events, two.events);
}

/// More bytes do not change how a stream opens, once that is known.
proof fn lemma_opening_in_pieces(s: Seq<u8>, b: Seq<u8>, prefix_checked: bool)
    ensures
        match opening(s, prefix_checked) {
            Opening::Wait { buf, prefix_checked: checked } => opening(buf + b, checked) == opening(
                s + b,
                prefix_checked,
            ),
            Opening::Bad(e) => opening(s + b, prefix_checked) == Opening::Bad(e),
            Opening::Tags(rest) => opening(s + b, prefix_checked) == Opening::Tags(rest + b),
        },
{
    if prefix_checked || s.len() >= 11 {
        let rest = if prefix_checked {
            s
        } else {
            without_prefix(s)
        };
        let all = if prefix_checked {
            s + b
        } else {
            without_prefix(s + b)
        };
        assert(all =~= rest + b) by {
            if !prefix_checked {
                assert(UPFLV_PREFIX@.is_prefix_of(s) == UPFLV_PREFIX@.is_prefix_of(s + b)) by {
                    assert(s.subrange(0, 11) =~= (s + b).subrange(0, 11));
                    if UPFLV_PREFIX@.is_prefix_of(s) {
                        assert(UPFLV_PREFIX@ =~= s.subrange(0, 11));
                    }
                    if UPFLV_PREFIX@.is_prefix_of(s + b) {
                        assert(UPFLV_PREFIX@ =~= (s + b).subrange(0, 11));
                    }
                }
            }
        }
        if rest.len() >= 9 {
            assert(all.subrange(0, 3) =~= rest.subrange(0, 3));
            match flv_header(rest) {
                Ok((_, end)) => {
                    assert(all.skip(end) =~= rest.skip(end) + b);
                },
                Err(_) => {},
            }
        }
    }
}

/// Where the connection cuts the stream makes no difference: bytes fed in two pieces lead to the same
/// hub, the same counts and the same progress as all of them at once, as long as the framer stays in
/// step.
pub proof fn law_feeding_in_pieces(p: Progress, d: Dispatch, a: Seq<u8>, b: Seq<u8>)
    requires
        is_in_step(p, a),
        is_in_step(p, a + b),
        !fed(p, d, a).2,
    ensures
        ({
            let (p1, d1, _) = fed(p, d, a);
            let in_pieces = fed(p1, d1, b);
            let at_once = fed(p, d, a + b);
            &&& in_pieces.1 == at_once.1
            &&& in_pieces.2 == at_once.2
            &&& !at_once.2 ==> in_pieces.0 == at_once.0
        }),
{
    match p.parser {
        Some(parser) => {
            lemma_run_in_pieces(d, parser, a, b);
        },
        None => {
            let s = p.buf + a;
            assert(p.buf + (a + b) =~= s + b);
            lemma_opening_in_pieces(s, b, p.prefix_checked);
            match opening(s, p.prefix_checked) {
                Opening::Tags(rest) => {
                    lemma_run_in_pieces(d, fresh_framer(), rest, b);
                },
                _ => {},
            }
        },
    }
}

} // verus!
