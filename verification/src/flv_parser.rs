//! FLV container framing: the optional 11-byte prefix that UniFi cameras put in front of the stream,
//! the FLV header, and a push-based framer that turns arbitrary chunks of the tag stream into tags.
//! Tag bodies stay undecoded here.

use crate::avc::AvcError;
use crate::bytes::{
    append_bytes, be24, be32, be32_bytes, bytes_eq, copy_range, lemma_be32_bytes_read_back, read_be24, read_be32,
};
use vstd::prelude::*;
use vstd::slice::slice_subrange;

verus! {

/// The prefix that a UniFi camera may send before the FLV body.
pub const UPFLV_PREFIX: [u8; 11] = [
    0xDE,
    0x19,
    0x16,
    0x15,
    0x47,
    0x17,
    0xDE,
    0x19,
    0x16,
    0x75,
    0x50,
];

/// `FLV` in ASCII.
pub const FLV_SIGNATURE: [u8; 3] = [0x46, 0x4C, 0x56];

/// Length of the FLV header: signature, version, flags and header size.
pub const FLV_HEADER_SIZE: usize = 9;

pub const TAG_TYPE_AUDIO: u8 = 0x08;

pub const TAG_TYPE_VIDEO: u8 = 0x09;

pub const TAG_TYPE_SCRIPT: u8 = 0x12;

/// Tag type of UniFi's extendedFlv video tags, whose header has the timestamp before the size.
pub const TAG_TYPE_EXTENDED_VIDEO: u8 = 0x00;

/// Size of the previous-tag-size field in front of a tag.
pub const PREV_TAG_SIZE_BYTES: usize = 4;

/// Size of a tag header.
pub const TAG_HEADER_BYTES: usize = 11;

/// Size of the trailer behind an empty extendedFlv tag.
pub const EXTFLV_TRAILER_BYTES: usize = 5;

/// The largest tag payload that the framer accepts. A tag header can declare up to 16 MiB; no camera
/// frame comes near 8 MiB, so a larger size means that the stream is out of step.
pub const MAX_TAG_DATA_SIZE: u32 = 0x80_0000;

pub const SUPPORTED_FLV_VERSION: u8 = 1;

/// Why the stream could not be parsed.
#[derive(Debug, Clone, Copy, PartialEq, Eq, Structural)]
pub enum ParseError {
    /// More bytes are needed.
    Truncated,
    /// The stream does not start with `FLV`.
    BadSignature,
    /// The FLV version is not 1.
    UnsupportedVersion,
    /// A tag declares more than `MAX_TAG_DATA_SIZE` bytes. The framer has dropped what it had
    /// buffered and starts over.
    OversizedTag { tag_type: u8, data_size: u32, cap: u32 },
    /// The codec body of a video tag is malformed.
    Codec(AvcError),
}

/// The FLV header.
#[derive(Debug, Clone, Copy, PartialEq, Eq, Structural)]
pub struct FlvHeader {
    pub version: u8,
    pub has_audio: bool,
    pub has_video: bool,
    /// The declared header size; more than 9 declares bytes to skip.
    pub header_size: u32,
}

/// The stream behind the prefix, or the whole stream if it does not start with the prefix.
pub open spec fn without_prefix(s: Seq<u8>) -> Seq<u8> {
    if UPFLV_PREFIX@.is_prefix_of(s) {
        s.skip(11)
    } else {
        s
    }
}

/// Strips the prefix, if the stream starts with exactly those bytes.
pub fn detect_and_strip_prefix(buf: &[u8]) -> (r: &[u8])
    ensures
        r@ == without_prefix(buf@),
{
    if buf.len() >= 11 && bytes_eq(slice_subrange(buf, 0, 11), UPFLV_PREFIX.as_slice()) {
        assert(UPFLV_PREFIX@.is_prefix_of(buf@));
        assert(buf@.subrange(11, buf@.len() as int) =~= buf@.skip(11));
        slice_subrange(buf, 11, buf.len())
    } else {
        proof {
            if UPFLV_PREFIX@.is_prefix_of(buf@) {
                assert(buf@.subrange(0, 11) =~= UPFLV_PREFIX@);
            }
        }
        buf
    }
}

/// The header at the start of `s` and the length it takes up, or why there is none.
pub open spec fn flv_header(s: Seq<u8>) -> Result<(FlvHeader, int), ParseError> {
    if s.len() < FLV_HEADER_SIZE {
        Err(ParseError::Truncated)
    } else if s.subrange(0, 3) != FLV_SIGNATURE@ {
        Err(ParseError::BadSignature)
    } else if s[3] != SUPPORTED_FLV_VERSION {
        Err(ParseError::UnsupportedVersion)
    } else {
        let header_size = be32(s[5], s[6], s[7], s[8]);
        let end = if header_size > FLV_HEADER_SIZE {
            header_size
        } else {
            FLV_HEADER_SIZE as int
        };
        if s.len() < end {
            Err(ParseError::Truncated)
        } else {
            Ok(
                (
                    FlvHeader {
                        version: s[3],
                        has_audio: s[4] % 2 == 1,
                        has_video: (s[4] / 4) % 2 == 1,
                        header_size: header_size as u32,
                    },
                    end,
                ),
            )
        }
    }
}

/// Parses the FLV header. Gives the bytes behind it, any declared skip included, and the header.
pub fn parse_header(buf: &[u8]) -> (r: Result<(&[u8], FlvHeader), ParseError>)
    ensures
        match flv_header(buf@) {
            Ok((header, end)) => r matches Ok((rest, h)) && h == header && rest@ == buf@.skip(end),
            Err(e) => r == Err::<(&[u8], FlvHeader), ParseError>(e),
        },
{
    if buf.len() < FLV_HEADER_SIZE {
        return Err(ParseError::Truncated);
    }
    if !bytes_eq(slice_subrange(buf, 0, 3), FLV_SIGNATURE.as_slice()) {
        return Err(ParseError::BadSignature);
    }
    let version: u8 = buf[3];
    if version != SUPPORTED_FLV_VERSION {
        return Err(ParseError::UnsupportedVersion);
    }
    let flags: u8 = buf[4];
    let header_size: u32 = read_be32(buf[5], buf[6], buf[7], buf[8]);
    let end: usize = if header_size as usize > FLV_HEADER_SIZE {
        header_size as usize
    } else {
        FLV_HEADER_SIZE
    };
    if buf.len() < end {
        return Err(ParseError::Truncated);
    }
    assert(buf@.subrange(end as int, buf@.len() as int) =~= buf@.skip(end as int));
    Ok(
        (
            slice_subrange(buf, end, buf.len()),
            FlvHeader {
                version,
                has_audio: flags % 2 == 1,
                has_video: (flags / 4) % 2 == 1,
                header_size,
            },
        ),
    )
}

/// One tag of the stream, its body undecoded.
#[derive(Debug, Clone, PartialEq, Eq)]
pub enum TagEvent {
    Script { timestamp_ms: u32, body: Vec<u8> },
    Audio { timestamp_ms: u32, body: Vec<u8> },
    Video { timestamp_ms: u32, body: Vec<u8> },
    /// A tag of any other type; reported so that the caller can log it.
    Unknown { tag_type: u8, timestamp_ms: u32, body: Vec<u8> },
}

/// The contents of a `TagEvent`.
pub enum TagView {
    Script { timestamp_ms: u32, body: Seq<u8> },
    Audio { timestamp_ms: u32, body: Seq<u8> },
    Video { timestamp_ms: u32, body: Seq<u8> },
    Unknown { tag_type: u8, timestamp_ms: u32, body: Seq<u8> },
}

impl View for TagEvent {
    type V = TagView;

    open spec fn view(&self) -> TagView {
        match self {
            TagEvent::Script { timestamp_ms, body } => TagView::Script {
                timestamp_ms: *timestamp_ms,
                body: body@,
            },
            TagEvent::Audio { timestamp_ms, body } => TagView::Audio {
                timestamp_ms: *timestamp_ms,
                body: body@,
            },
            TagEvent::Video { timestamp_ms, body } => TagView::Video {
                timestamp_ms: *timestamp_ms,
                body: body@,
            },
            TagEvent::Unknown { tag_type, timestamp_ms, body } => TagView::Unknown {
                tag_type: *tag_type,
                timestamp_ms: *timestamp_ms,
                body: body@,
            },
        }
    }
}

/// The contents of a sequence of tags.
pub open spec fn tag_views(events: Seq<TagEvent>) -> Seq<TagView> {
    events.map_values(|e: TagEvent| e@)
}

/// Where the framer stands in the stream.
#[derive(Debug, Clone, Copy, PartialEq, Eq, Structural)]
pub enum FramerState {
    /// Before the previous-tag-size field.
    PrevTagSize,
    /// Before a tag header that no previous-tag-size field precedes, as behind a non-empty
    /// extendedFlv tag.
    TagHeaderNoPrevSize,
    /// Before the trailer of an empty extendedFlv tag.
    SkipExtFlvTrailer,
    /// Before a tag header.
    TagHeader,
    /// Before the body of the tag whose header has just been read.
    TagBody { tag_type: u8, data_size: u32, timestamp_ms: u32 },
}

/// The tag that the type byte, timestamp and body make up. extendedFlv tags count as video.
pub open spec fn tag_of(tag_type: u8, timestamp_ms: u32, body: Seq<u8>) -> TagView {
    if tag_type == TAG_TYPE_AUDIO {
        TagView::Audio { timestamp_ms, body }
    } else if tag_type == TAG_TYPE_EXTENDED_VIDEO || tag_type == TAG_TYPE_VIDEO {
        TagView::Video { timestamp_ms, body }
    } else if tag_type == TAG_TYPE_SCRIPT {
        TagView::Script { timestamp_ms, body }
    } else {
        TagView::Unknown { tag_type, timestamp_ms, body }
    }
}

/// The payload size that a tag header declares. Bytes 1 to 3 hold it, or bytes 5 to 7 in an
/// extendedFlv header.
pub open spec fn header_data_size(h: Seq<u8>) -> int {
    if h[0] == TAG_TYPE_EXTENDED_VIDEO {
        be24(h[5], h[6], h[7])
    } else {
        be24(h[1], h[2], h[3])
    }
}

/// The timestamp of a tag header: three low bytes, then the high byte.
pub open spec fn header_timestamp(h: Seq<u8>) -> int {
    if h[0] == TAG_TYPE_EXTENDED_VIDEO {
        be32(h[4], h[1], h[2], h[3])
    } else {
        be32(h[7], h[4], h[5], h[6])
    }
}

/// What stands behind the body of a tag.
pub open spec fn state_after_body(tag_type: u8, data_size: u32) -> FramerState {
    if tag_type != TAG_TYPE_EXTENDED_VIDEO {
        FramerState::PrevTagSize
    } else if data_size == 0 {
        FramerState::SkipExtFlvTrailer
    } else {
        FramerState::TagHeaderNoPrevSize
    }
}

/// One step of the framer.
pub enum FrameStep {
    /// More bytes are needed.
    Wait,
    /// `used` bytes are consumed; a body also gives a tag.
    Go { state: FramerState, used: int, event: Option<TagView> },
    /// The stream is out of step.
    Fail(ParseError),
}

pub open spec fn frame_step(state: FramerState, s: Seq<u8>) -> FrameStep {
    match state {
        FramerState::PrevTagSize => if s.len() < PREV_TAG_SIZE_BYTES {
            FrameStep::Wait
        } else {
            FrameStep::Go {
                state: FramerState::TagHeader,
                used: PREV_TAG_SIZE_BYTES as int,
                event: None,
            }
        },
        FramerState::TagHeaderNoPrevSize => FrameStep::Go {
            state: FramerState::TagHeader,
            used: 0,
            event: None,
        },
        FramerState::SkipExtFlvTrailer => if s.len() < EXTFLV_TRAILER_BYTES {
            FrameStep::Wait
        } else {
            FrameStep::Go {
                state: FramerState::TagHeader,
                used: EXTFLV_TRAILER_BYTES as int,
                event: None,
            }
        },
        FramerState::TagHeader => if s.len() < TAG_HEADER_BYTES {
            FrameStep::Wait
        } else if header_data_size(s) > MAX_TAG_DATA_SIZE {
            FrameStep::Fail(
                ParseError::OversizedTag {
                    tag_type: s[0],
                    data_size: header_data_size(s) as u32,
                    cap: MAX_TAG_DATA_SIZE,
                },
            )
        } else {
            FrameStep::Go {
                state: FramerState::TagBody {
                    tag_type: s[0],
                    data_size: header_data_size(s) as u32,
                    timestamp_ms: header_timestamp(s) as u32,
                },
                used: TAG_HEADER_BYTES as int,
                event: None,
            }
        },
        FramerState::TagBody { tag_type, data_size, timestamp_ms } => if s.len() < data_size {
            FrameStep::Wait
        } else {
            FrameStep::Go {
                state: state_after_body(tag_type, data_size),
                used: data_size as int,
                event: Some(tag_of(tag_type, timestamp_ms, s.subrange(0, data_size as int))),
            }
        },
    }
}

/// What a run of the framer gives: the tags, where it stopped, what it left unread, and the error
/// that stopped it. After an error it starts over with nothing buffered.
pub struct FrameRun {
    pub events: Seq<TagView>,
    pub state: FramerState,
    pub rest: Seq<u8>,
    pub error: Option<ParseError>,
}

/// Steps that consume nothing lower this rank, so that every run ends.
pub open spec fn state_rank(state: FramerState) -> int {
    match state {
        FramerState::TagBody { .. } => 2,
        FramerState::TagHeaderNoPrevSize => 1,
        _ => 0,
    }
}

pub open spec fn event_seq(event: Option<TagView>) -> Seq<TagView> {
    match event {
        Some(e) => seq![e],
        None => Seq::empty(),
    }
}

/// `run` with `events` in front of its tags.
pub open spec fn preceded_by(events: Seq<TagView>, run: FrameRun) -> FrameRun {
    FrameRun { events: events + run.events, state: run.state, rest: run.rest, error: run.error }
}

/// Steps through `s` from `state` until more bytes are needed or a step fails.
pub open spec fn frame_run(state: FramerState, s: Seq<u8>) -> FrameRun
    decreases s.len(), state_rank(state),
{
    match frame_step(state, s) {
        FrameStep::Wait => FrameRun { events: Seq::empty(), state, rest: s, error: None },
        FrameStep::Fail(e) => FrameRun {
            events: Seq::empty(),
            state: FramerState::PrevTagSize,
            rest: Seq::empty(),
            error: Some(e),
        },
        FrameStep::Go { state: next, used, event } => preceded_by(
            event_seq(event),
            frame_run(next, s.skip(used)),
        ),
    }
}

/// Push-based framer of the tag stream behind the FLV header. Bytes of an unfinished tag stay
/// buffered between pushes, so chunks may be cut anywhere.
#[derive(Debug, Clone)]
pub struct FlvParser {
    state: FramerState,
    buf: Vec<u8>,
}

/// The contents of an `FlvParser`.
pub struct FlvParserView {
    pub state: FramerState,
    pub buf: Seq<u8>,
}

impl View for FlvParser {
    type V = FlvParserView;

    closed spec fn view(&self) -> FlvParserView {
        FlvParserView { state: self.state, buf: self.buf@ }
    }
}

/// The framer at the start of a tag stream.
pub open spec fn fresh_framer() -> FlvParserView {
    FlvParserView { state: FramerState::PrevTagSize, buf: Seq::empty() }
}

impl FlvParser {
    /// A framer for the bytes behind the FLV header.
    pub fn new() -> (r: FlvParser)
        ensures
            r@ == fresh_framer(),
    {
        FlvParser { state: FramerState::PrevTagSize, buf: Vec::new() }
    }

    /// Takes in `chunk` and gives the tags that are now complete, in stream order. An oversized tag
    /// is an error: the tags before it in this push are lost, the buffer is dropped and the framer
    /// starts over.
    pub fn push(&mut self, chunk: &[u8]) -> (r: Result<Vec<TagEvent>, ParseError>)
        ensures
            ({
                let run = frame_run(old(self)@.state, old(self)@.buf + chunk@);
                &&& final(self)@ == (FlvParserView { state: run.state, buf: run.rest })
                &&& match run.error {
                    None => r matches Ok(events) && tag_views(events@) == run.events,
                    Some(e) => r == Err::<Vec<TagEvent>, ParseError>(e),
                }
            }),
    {
        append_bytes(&mut self.buf, chunk);
        let ghost all = self.buf@;
        let ghost first = self.state;
        let ghost whole = frame_run(first, all);
        let mut events: Vec<TagEvent> = Vec::new();
        let mut pos: usize = 0;
        let mut state: FramerState = self.state;
        assert(all.skip(0) =~= all);
        assert(tag_views(events@) =~= Seq::<TagView>::empty());
        assert(whole == preceded_by(tag_views(events@), frame_run(state, all.skip(0)))) by {
            assert(Seq::<TagView>::empty() + whole.events =~= whole.events);
        }
        loop
            invariant_except_break
                whole == frame_run(old(self)@.state, old(self)@.buf + chunk@),
                self.buf@ == all,
                pos <= all.len(),
                whole == preceded_by(tag_views(events@), frame_run(state, all.skip(pos as int))),
            ensures
                self.buf@ == all,
                pos <= all.len(),
                whole.error is None,
                whole.events == tag_views(events@),
                whole.state == state,
                whole.rest == all.skip(pos as int),
            decreases all.len() - pos, state_rank(state),
        {
            let ghost rest = all.skip(pos as int);
            let ghost before = tag_views(events@);
            let avail: usize = self.buf.len() - pos;
            match state {
                FramerState::PrevTagSize => {
                    if avail < PREV_TAG_SIZE_BYTES {
                        assert(before + Seq::<TagView>::empty() =~= before);
                        break;
                    }
                    assert(all.skip(pos + PREV_TAG_SIZE_BYTES) =~= rest.skip(
                        PREV_TAG_SIZE_BYTES as int,
                    ));
                    pos += PREV_TAG_SIZE_BYTES;
                    state = FramerState::TagHeader;
                    assert(before + (Seq::<TagView>::empty() + frame_run(
                        state,
                        all.skip(pos as int),
                    ).events) =~= before + frame_run(state, all.skip(pos as int)).events);
                },
                FramerState::TagHeaderNoPrevSize => {
                    assert(rest.skip(0) =~= rest);
                    state = FramerState::TagHeader;
                    assert(before + (Seq::<TagView>::empty() + frame_run(state, rest).events)
                        =~= before + frame_run(state, rest).events);
                },
                FramerState::SkipExtFlvTrailer => {
                    if avail < EXTFLV_TRAILER_BYTES {
                        assert(before + Seq::<TagView>::empty() =~= before);
                        break;
                    }
                    assert(all.skip(pos + EXTFLV_TRAILER_BYTES) =~= rest.skip(
                        EXTFLV_TRAILER_BYTES as int,
                    ));
                    pos += EXTFLV_TRAILER_BYTES;
                    state = FramerState::TagHeader;
                    assert(before + (Seq::<TagView>::empty() + frame_run(
                        state,
                        all.skip(pos as int),
                    ).events) =~= before + frame_run(state, all.skip(pos as int)).events);
                },
                FramerState::TagHeader => {
                    if avail < TAG_HEADER_BYTES {
                        assert(before + Seq::<TagView>::empty() =~= before);
                        break;
                    }
                    let (tag_type, data_size, timestamp_ms): (u8, u32, u32) = read_tag_header(
                        self.buf.as_slice(),
                        pos,
                    );
                    if data_size > MAX_TAG_DATA_SIZE {
                        self.buf.clear();
                        self.state = FramerState::PrevTagSize;
                        return Err(
                            ParseError::OversizedTag {
                                tag_type,
                                data_size,
                                cap: MAX_TAG_DATA_SIZE,
                            },
                        );
                    }
                    assert(all.skip(pos + TAG_HEADER_BYTES) =~= rest.skip(
                        TAG_HEADER_BYTES as int,
                    ));
                    pos += TAG_HEADER_BYTES;
                    state = FramerState::TagBody { tag_type, data_size, timestamp_ms };
                    assert(before + (Seq::<TagView>::empty() + frame_run(
                        state,
                        all.skip(pos as int),
                    ).events) =~= before + frame_run(state, all.skip(pos as int)).events);
                },
                FramerState::TagBody { tag_type, data_size, timestamp_ms } => {
                    let need: usize = data_size as usize;
                    if avail < need {
                        assert(before + Seq::<TagView>::empty() =~= before);
                        break;
                    }
                    let body: Vec<u8> = copy_range(self.buf.as_slice(), pos, pos + need);
                    assert(body@ =~= rest.subrange(0, need as int));
                    assert(all.skip(pos + need) =~= rest.skip(need as int));
                    let event: TagEvent = make_event(tag_type, timestamp_ms, body);
                    let ghost tag = event@;
                    events.push(event);
                    pos += need;
                    state = if tag_type == TAG_TYPE_EXTENDED_VIDEO {
                        if data_size == 0 {
                            FramerState::SkipExtFlvTrailer
                        } else {
                            FramerState::TagHeaderNoPrevSize
                        }
                    } else {
                        FramerState::PrevTagSize
                    };
                    assert(tag_views(events@) =~= before.push(tag));
                    assert(before + (seq![tag] + frame_run(state, all.skip(pos as int)).events)
                        =~= tag_views(events@) + frame_run(state, all.skip(pos as int)).events);
                },
            }
        }
        let rest: Vec<u8> = self.buf.split_off(pos);
        assert(rest@ =~= all.skip(pos as int));
        self.buf = rest;
        self.state = state;
        Ok(events)
    }
}

impl Default for FlvParser {
    fn default() -> (r: FlvParser)
        ensures
            r@ == fresh_framer(),
    {
        FlvParser::new()
    }
}

/// Reads the tag header at `pos`: the type, the payload size and the timestamp.
fn read_tag_header(buf: &[u8], pos: usize) -> (r: (u8, u32, u32))
    requires
        pos + TAG_HEADER_BYTES <= buf@.len(),
    ensures
        r.0 == buf@.skip(pos as int)[0],
        r.1 == header_data_size(buf@.skip(pos as int)),
        r.2 == header_timestamp(buf@.skip(pos as int)),
{
    let tail: &[u8] = slice_subrange(buf, pos, buf.len());
    let h: &[u8] = slice_subrange(tail, 0, TAG_HEADER_BYTES);
    assert(forall|i: int| 0 <= i < TAG_HEADER_BYTES ==> h@[i] == buf@.skip(pos as int)[i]);
    let tag_type: u8 = h[0];
    if tag_type == TAG_TYPE_EXTENDED_VIDEO {
        (tag_type, read_be24(h[5], h[6], h[7]), read_be32(h[4], h[1], h[2], h[3]))
    } else {
        (tag_type, read_be24(h[1], h[2], h[3]), read_be32(h[7], h[4], h[5], h[6]))
    }
}

fn make_event(tag_type: u8, timestamp_ms: u32, body: Vec<u8>) -> (r: TagEvent)
    ensures
        r@ == tag_of(tag_type, timestamp_ms, body@),
{
    if tag_type == TAG_TYPE_AUDIO {
        TagEvent::Audio { timestamp_ms, body }
    } else if tag_type == TAG_TYPE_EXTENDED_VIDEO || tag_type == TAG_TYPE_VIDEO {
        TagEvent::Video { timestamp_ms, body }
    } else if tag_type == TAG_TYPE_SCRIPT {
        TagEvent::Script { timestamp_ms, body }
    } else {
        TagEvent::Unknown { tag_type, timestamp_ms, body }
    }
}

/// Where a stream is cut into pushes does not matter: taking in `a` and then `b` gives the tags, the
/// state and the outcome of taking in both at once.
pub proof fn law_cuts_do_not_matter(state: FramerState, a: Seq<u8>, b: Seq<u8>)
    requires
        frame_run(state, a).error is None,
    ensures
        ({
            let one = frame_run(state, a);
            frame_run(state, a + b) == preceded_by(
                one.events,
                frame_run(one.state, one.rest + b),
            )
        }),
    decreases a.len(), state_rank(state),
{
    let one = frame_run(state, a);
    match frame_step(state, a) {
        FrameStep::Wait => {
            let both = frame_run(state, a + b);
            assert(Seq::<TagView>::empty() + both.events =~= both.events);
        },
        FrameStep::Fail(_) => {},
        FrameStep::Go { state: next, used, event } => {
            law_cuts_do_not_matter(next, a.skip(used), b);
            assert(a.skip(used) + b =~= (a + b).skip(used));
            lemma_step_is_stable(state, a, b);
            let tail = frame_run(next, a.skip(used));
            let end = frame_run(tail.state, tail.rest + b);
            assert(event_seq(event) + (tail.events + end.events) =~= (event_seq(event)
                + tail.events) + end.events);
        },
    }
}

/// A stream that is out of step stays so, whatever follows.
pub proof fn law_errors_do_not_depend_on_what_follows(
    state: FramerState,
    a: Seq<u8>,
    b: Seq<u8>,
)
    requires
        frame_run(state, a).error is Some,
    ensures
        frame_run(state, a + b).error == frame_run(state, a).error,
    decreases a.len(), state_rank(state),
{
    lemma_step_is_stable(state, a, b);
    match frame_step(state, a) {
        FrameStep::Go { state: next, used, event } => {
            law_errors_do_not_depend_on_what_follows(next, a.skip(used), b);
            assert(a.skip(used) + b =~= (a + b).skip(used));
        },
        _ => {},
    }
}

/// A step that does not wait is the same when more bytes follow.
proof fn lemma_step_is_stable(state: FramerState, a: Seq<u8>, b: Seq<u8>)
    ensures
        !(frame_step(state, a) is Wait) ==> frame_step(state, a + b) == frame_step(state, a),
{
    if let FramerState::TagBody { data_size, .. } = state {
        if a.len() >= data_size {
            assert((a + b).subrange(0, data_size as int) =~= a.subrange(0, data_size as int));
        }
    }
}

/// Whether the framer waits for a body that it accepted.
pub open spec fn state_in_bounds(state: FramerState) -> bool {
    state matches FramerState::TagBody { data_size, .. } ==> data_size <= MAX_TAG_DATA_SIZE
}

/// The framer never holds back more than one tag payload at the cap.
pub proof fn law_buffer_is_bounded(state: FramerState, s: Seq<u8>)
    requires
        state_in_bounds(state),
    ensures
        state_in_bounds(frame_run(state, s).state),
        frame_run(state, s).rest.len() < MAX_TAG_DATA_SIZE,
    decreases s.len(), state_rank(state),
{
    match frame_step(state, s) {
        FrameStep::Go { state: next, used, event } => {
            law_buffer_is_bounded(next, s.skip(used));
        },
        _ => {},
    }
}

/// A standard tag on the wire: previous-tag-size field, header with any stream id, body.
pub open spec fn standard_tag(
    prev_size: Seq<u8>,
    tag_type: u8,
    timestamp_ms: u32,
    stream_id: Seq<u8>,
    body: Seq<u8>,
) -> Seq<u8> {
    let t = be32_bytes(timestamp_ms as int);
    let n = be32_bytes(body.len() as int);
    prev_size + seq![tag_type, n[1], n[2], n[3], t[1], t[2], t[3], t[0]] + stream_id + body
}

/// The framer gives back each tag that is written to the stream, and goes on behind it.
pub proof fn law_standard_tag_is_framed(
    prev_size: Seq<u8>,
    tag_type: u8,
    timestamp_ms: u32,
    stream_id: Seq<u8>,
    body: Seq<u8>,
    rest: Seq<u8>,
)
    requires
        prev_size.len() == 4,
        stream_id.len() == 3,
        tag_type != TAG_TYPE_EXTENDED_VIDEO,
        body.len() <= MAX_TAG_DATA_SIZE,
    ensures
        frame_run(
            FramerState::PrevTagSize,
            standard_tag(prev_size, tag_type, timestamp_ms, stream_id, body) + rest,
        ) == preceded_by(
            seq![tag_of(tag_type, timestamp_ms, body)],
            frame_run(FramerState::PrevTagSize, rest),
        ),
{
    let n = body.len() as int;
    lemma_be32_bytes_read_back(n);
    lemma_be32_bytes_read_back(timestamp_ms as int);
    let s = standard_tag(prev_size, tag_type, timestamp_ms, stream_id, body) + rest;
    let s1 = s.skip(4);
    let s2 = s1.skip(11);
    let body_state = FramerState::TagBody { tag_type, data_size: n as u32, timestamp_ms };
    assert(header_data_size(s1) == n);
    assert(header_timestamp(s1) == timestamp_ms);
    assert(s2.subrange(0, n) =~= body);
    assert(s2.skip(n) =~= rest);
    let after = frame_run(FramerState::PrevTagSize, rest);
    let tag = tag_of(tag_type, timestamp_ms, body);
    assert(frame_run(body_state, s2) == preceded_by(seq![tag], after));
    assert(frame_run(FramerState::TagHeader, s1) == preceded_by(
        Seq::empty(),
        frame_run(body_state, s2),
    ));
    assert(Seq::<TagView>::empty() + (Seq::<TagView>::empty() + (seq![tag] + after.events))
        =~= seq![tag] + after.events);
}

/// A tag of the cameras' own layout: the timestamp stands before the size, and no size of the tag
/// before it stands in front.
pub open spec fn extended_tag(timestamp_ms: u32, stream_id: Seq<u8>, body: Seq<u8>) -> Seq<u8> {
    let t = be32_bytes(timestamp_ms as int);
    let n = be32_bytes(body.len() as int);
    seq![TAG_TYPE_EXTENDED_VIDEO, t[1], t[2], t[3], t[0], n[1], n[2], n[3]] + stream_id + body
}

/// The framer gives back each tag of the cameras' own layout too. A frame is followed by the next
/// tag at once; a heartbeat, which has no body, by a trailer that belongs to no tag.
pub proof fn law_extended_tag_is_framed(
    timestamp_ms: u32,
    stream_id: Seq<u8>,
    body: Seq<u8>,
    trailer: Seq<u8>,
    rest: Seq<u8>,
)
    requires
        stream_id.len() == 3,
        body.len() <= MAX_TAG_DATA_SIZE,
        trailer.len() == (if body.len() == 0 {
            EXTFLV_TRAILER_BYTES as int
        } else {
            0
        }),
    ensures
        frame_run(FramerState::TagHeader, extended_tag(timestamp_ms, stream_id, body) + trailer + rest) == preceded_by(
            seq![TagView::Video { timestamp_ms, body }],
            frame_run(FramerState::TagHeader, rest),
        ),
{
    let n = body.len() as int;
    lemma_be32_bytes_read_back(n);
    lemma_be32_bytes_read_back(timestamp_ms as int);
    let s = extended_tag(timestamp_ms, stream_id, body) + trailer + rest;
    let s1 = s.skip(11);
    let body_state = FramerState::TagBody { tag_type: TAG_TYPE_EXTENDED_VIDEO, data_size: n as u32, timestamp_ms };
    assert(header_data_size(s) == n);
    assert(header_timestamp(s) == timestamp_ms);
    assert(s1.subrange(0, n) =~= body);
    assert(s1.skip(n) =~= trailer + rest);
    let after = frame_run(FramerState::TagHeader, rest);
    let tag = TagView::Video { timestamp_ms, body };
    let none = Seq::<TagView>::empty();
    if n == 0 {
        assert((trailer + rest).skip(5) =~= rest);
        assert(frame_run(FramerState::SkipExtFlvTrailer, trailer + rest) == preceded_by(none, after));
        assert(frame_run(body_state, s1) == preceded_by(
            seq![tag],
            frame_run(FramerState::SkipExtFlvTrailer, trailer + rest),
        ));
    } else {
        assert(trailer + rest =~= rest);
        assert(rest.skip(0) =~= rest);
        assert(frame_run(FramerState::TagHeaderNoPrevSize, rest) == preceded_by(none, after));
        assert(frame_run(body_state, s1) == preceded_by(
            seq![tag],
            frame_run(FramerState::TagHeaderNoPrevSize, rest),
        ));
    }
    assert(frame_run(FramerState::TagHeader, s) == preceded_by(none, frame_run(body_state, s1)));
    assert(none + (seq![tag] + (none + after.events)) =~= seq![tag] + after.events);
}

} // verus!
