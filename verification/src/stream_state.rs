//! The hub between the camera and those who watch. The camera publishes codec parameters and frames;
//! each client reads frames from a queue of its own. A client that falls a full queue behind is let
//! go, so that the camera never waits. The last keyframe is kept, so that a client that joins has
//! something to decode at once.

use crate::bytes::{copy_nested, copy_range, nested};
use crate::camera_identity::{CameraIdentity, IdentityView};
use crate::ieee754::Binary32;
use vstd::prelude::*;

verus! {

/// Most frames that wait for one client.
pub const CLIENT_CHANNEL_CAPACITY: usize = 64;

/// The first client's number; no client has number 0.
pub const FIRST_CLIENT_ID: u64 = 1;

/// One decoded frame, ready for packetization.
#[derive(Debug, Clone, PartialEq, Eq)]
pub struct Frame {
    pub is_keyframe: bool,
    /// Timestamp of the FLV tag, in milliseconds.
    pub timestamp_ms: u32,
    /// NAL units in stream order, without start codes and length prefixes.
    pub nalus: Vec<Vec<u8>>,
}

/// What a frame stands for.
#[verifier::ext_equal]
pub struct FrameView {
    pub is_keyframe: bool,
    pub timestamp_ms: u32,
    pub nalus: Seq<Seq<u8>>,
}

impl View for Frame {
    type V = FrameView;

    open spec fn view(&self) -> FrameView {
        FrameView {
            is_keyframe: self.is_keyframe,
            timestamp_ms: self.timestamp_ms,
            nalus: nested(self.nalus@),
        }
    }
}

impl Frame {
    /// An equal frame of its own.
    pub fn duplicate(&self) -> (r: Frame)
        ensures
            r@ == self@,
    {
        Frame {
            is_keyframe: self.is_keyframe,
            timestamp_ms: self.timestamp_ms,
            nalus: copy_nested(&self.nalus),
        }
    }
}

/// What a client needs to know of the stream before it can decode frames.
#[derive(Debug, Clone, PartialEq, Eq)]
pub struct CodecParams {
    pub sps: Vec<u8>,
    pub pps: Vec<u8>,
    pub profile_indication: u8,
    pub profile_compat: u8,
    pub level_indication: u8,
    pub width: Option<u32>,
    pub height: Option<u32>,
    pub fps: Option<Binary32>,
}

/// What codec parameters stand for.
#[verifier::ext_equal]
pub struct CodecView {
    pub sps: Seq<u8>,
    pub pps: Seq<u8>,
    pub profile_indication: u8,
    pub profile_compat: u8,
    pub level_indication: u8,
    pub width: Option<u32>,
    pub height: Option<u32>,
    pub fps: Option<Binary32>,
}

impl View for CodecParams {
    type V = CodecView;

    open spec fn view(&self) -> CodecView {
        CodecView {
            sps: self.sps@,
            pps: self.pps@,
            profile_indication: self.profile_indication,
            profile_compat: self.profile_compat,
            level_indication: self.level_indication,
            width: self.width,
            height: self.height,
            fps: self.fps,
        }
    }
}

impl CodecParams {
    /// Equal parameters of their own.
    pub fn duplicate(&self) -> (r: CodecParams)
        ensures
            r@ == self@,
    {
        let sps = copy_range(self.sps.as_slice(), 0, self.sps.len());
        let pps = copy_range(self.pps.as_slice(), 0, self.pps.len());
        assert(sps@ =~= self.sps@);
        assert(pps@ =~= self.pps@);
        CodecParams {
            sps,
            pps,
            profile_indication: self.profile_indication,
            profile_compat: self.profile_compat,
            level_indication: self.level_indication,
            width: self.width,
            height: self.height,
            fps: self.fps,
        }
    }
}

/// A client's number.
#[derive(Debug, Clone, Copy, PartialEq, Eq, Hash, Structural)]
pub struct ClientId(pub u64);

/// The stream's size and rate, as far as they are known.
#[derive(Debug, Clone, Copy, PartialEq, Eq, Structural)]
pub struct StreamSnapshot {
    pub width: Option<u32>,
    pub height: Option<u32>,
    pub fps: Option<Binary32>,
}

/// Which clients a frame could not be delivered to; they have been let go.
#[derive(Debug, Clone, PartialEq, Eq)]
pub struct PublishOutcome {
    pub dropped_client_ids: Vec<ClientId>,
}

impl Default for PublishOutcome {
    fn default() -> (r: PublishOutcome)
        ensures
            r.dropped_client_ids@.len() == 0,
    {
        PublishOutcome { dropped_client_ids: Vec::new() }
    }
}

/// The queue between the hub and one client.
#[derive(Debug, PartialEq, Eq)]
pub struct Channel {
    id: ClientId,
    queue: Vec<Frame>,
    /// Whether the hub still delivers to it.
    registered: bool,
    /// Whether the client still reads from it.
    open: bool,
}

/// What a queue stands for.
#[verifier::ext_equal]
pub struct ChannelView {
    pub id: ClientId,
    pub queue: Seq<FrameView>,
    pub registered: bool,
    pub open: bool,
}

/// What a list of frames stands for.
pub open spec fn frame_views(frames: Seq<Frame>) -> Seq<FrameView> {
    Seq::new(frames.len(), |i: int| frames[i]@)
}

impl View for Channel {
    type V = ChannelView;

    closed spec fn view(&self) -> ChannelView {
        ChannelView {
            id: self.id,
            queue: frame_views(self.queue@),
            registered: self.registered,
            open: self.open,
        }
    }
}

impl ChannelView {
    /// Whether there is room for another frame.
    pub open spec fn accepts(self) -> bool {
        self.open && self.queue.len() < CLIENT_CHANNEL_CAPACITY
    }

    /// Whether either end still holds it.
    pub open spec fn is_held(self) -> bool {
        self.registered || self.open
    }

    /// The queue after a frame was offered to it.
    pub open spec fn offered(self, f: FrameView) -> ChannelView {
        if !self.registered {
            self
        } else if self.accepts() {
            ChannelView { queue: self.queue.push(f), ..self }
        } else {
            ChannelView { registered: false, ..self }
        }
    }

    /// The queue after the hub let a client go.
    pub open spec fn released(self, id: ClientId) -> ChannelView {
        if self.id == id {
            ChannelView { registered: false, ..self }
        } else {
            self
        }
    }

    /// The queue after a client stopped reading.
    pub open spec fn hung_up(self, id: ClientId) -> ChannelView {
        if self.id == id {
            ChannelView { open: false, queue: Seq::empty(), ..self }
        } else {
            self
        }
    }
}

/// The queues after a change to each; those that neither end holds any more are gone.
pub open spec fn kept_after(channels: Seq<ChannelView>, change: spec_fn(ChannelView) -> ChannelView) -> Seq<
    ChannelView,
>
    decreases channels.len(),
{
    if channels.len() == 0 {
        Seq::empty()
    } else {
        let before = kept_after(channels.drop_last(), change);
        let c = change(channels.last());
        if c.is_held() {
            before.push(c)
        } else {
            before
        }
    }
}

/// The queues after a frame was offered to each.
pub open spec fn all_offered(channels: Seq<ChannelView>, f: FrameView) -> Seq<ChannelView> {
    kept_after(channels, |c: ChannelView| c.offered(f))
}

/// The clients that are let go when a frame is offered.
pub open spec fn dropped_ids(channels: Seq<ChannelView>) -> Seq<ClientId>
    decreases channels.len(),
{
    if channels.len() == 0 {
        Seq::empty()
    } else {
        let before = dropped_ids(channels.drop_last());
        if channels.last().registered && !channels.last().accepts() {
            before.push(channels.last().id)
        } else {
            before
        }
    }
}

/// The queues after a client was let go.
pub open spec fn all_released(channels: Seq<ChannelView>, id: ClientId) -> Seq<ChannelView> {
    kept_after(channels, |c: ChannelView| c.released(id))
}

/// The queues after a client stopped reading.
pub open spec fn all_hung_up(channels: Seq<ChannelView>, id: ClientId) -> Seq<ChannelView> {
    kept_after(channels, |c: ChannelView| c.hung_up(id))
}

/// How many clients the hub delivers to.
pub open spec fn registered_count(channels: Seq<ChannelView>) -> nat
    decreases channels.len(),
{
    if channels.len() == 0 {
        0
    } else {
        registered_count(channels.drop_last()) + if channels.last().registered {
            1nat
        } else {
            0
        }
    }
}

/// Whether the hub delivers to this client.
pub open spec fn is_registered(channels: Seq<ChannelView>, id: ClientId) -> bool {
    exists|i: int| 0 <= i < channels.len() && (#[trigger] channels[i]).id == id && channels[i].registered
}

/// Where the first queue of a client stands.
pub open spec fn channel_of(channels: Seq<ChannelView>, id: ClientId) -> Option<int>
    decreases channels.len(),
{
    if channels.len() == 0 {
        None
    } else {
        match channel_of(channels.drop_last(), id) {
            Some(i) => Some(i),
            None => if channels.last().id == id {
                Some(channels.len() - 1)
            } else {
                None
            },
        }
    }
}

/// What a client's read gives.
#[derive(Debug, PartialEq, Eq)]
pub enum Received {
    /// The next frame.
    Frame(Frame),
    /// Nothing yet.
    Empty,
    /// Nothing, and nothing will come.
    Disconnected,
}

/// The hub.
#[derive(Debug, PartialEq, Eq)]
pub struct StreamState {
    codec: Option<CodecParams>,
    last_keyframe: Option<Frame>,
    camera_identity: Option<CameraIdentity>,
    channels: Vec<Channel>,
    next_client_id: u64,
}

/// What the hub stands for.
#[verifier::ext_equal]
pub struct HubView {
    pub codec: Option<CodecView>,
    pub last_keyframe: Option<FrameView>,
    pub camera_identity: Option<IdentityView>,
    pub channels: Seq<ChannelView>,
    pub next_client_id: u64,
}

/// What a list of queues stands for.
pub open spec fn channel_views(channels: Seq<Channel>) -> Seq<ChannelView> {
    Seq::new(channels.len(), |i: int| channels[i]@)
}

impl View for StreamState {
    type V = HubView;

    closed spec fn view(&self) -> HubView {
        HubView {
            codec: match self.codec {
                Some(c) => Some(c@),
                None => None,
            },
            last_keyframe: match self.last_keyframe {
                Some(f) => Some(f@),
                None => None,
            },
            camera_identity: match self.camera_identity {
                Some(c) => Some(c@),
                None => None,
            },
            channels: channel_views(self.channels@),
            next_client_id: self.next_client_id,
        }
    }
}

/// A hub that nothing has been published to.
pub open spec fn empty_hub() -> HubView {
    HubView {
        codec: None,
        last_keyframe: None,
        camera_identity: None,
        channels: Seq::empty(),
        next_client_id: FIRST_CLIENT_ID,
    }
}

impl HubView {
    /// The hub after a frame was published.
    pub open spec fn with_frame(self, f: FrameView) -> HubView {
        HubView {
            last_keyframe: if f.is_keyframe {
                Some(f)
            } else {
                self.last_keyframe
            },
            channels: all_offered(self.channels, f),
            ..self
        }
    }

    /// The queue of a client that joins now: it begins with the last keyframe.
    pub open spec fn joining(self) -> ChannelView {
        ChannelView {
            id: ClientId(self.next_client_id),
            queue: match self.last_keyframe {
                Some(f) => seq![f],
                None => Seq::empty(),
            },
            registered: true,
            open: true,
        }
    }

    /// The hub after a client joined. When the numbers have run out they begin anew, above 0.
    pub open spec fn with_client(self) -> HubView {
        HubView {
            channels: self.channels.push(self.joining()),
            next_client_id: if self.next_client_id == u64::MAX {
                FIRST_CLIENT_ID
            } else {
                (self.next_client_id + 1) as u64
            },
            ..self
        }
    }
}

impl Channel {
    /// Offers a frame; gives whether the client is let go because it has no room or has left.
    fn offer(&mut self, frame: &Frame) -> (r: bool)
        ensures
            final(self)@ == old(self)@.offered(frame@),
            r == (old(self)@.registered && !old(self)@.accepts()),
    {
        if !self.registered {
            return false;
        }
        if self.open && self.queue.len() < CLIENT_CHANNEL_CAPACITY {
            let ghost before = frame_views(self.queue@);
            self.queue.push(frame.duplicate());
            assert(frame_views(self.queue@) =~= before.push(frame@));
            false
        } else {
            self.registered = false;
            true
        }
    }

    fn is_held(&self) -> (r: bool)
        ensures
            r == self@.is_held(),
    {
        self.registered || self.open
    }

    /// Lets the client go, if it is this one.
    fn release(&mut self, id: ClientId) -> (r: bool)
        ensures
            final(self)@ == old(self)@.released(id),
            r == (old(self)@.id == id && old(self)@.registered),
    {
        if self.id.0 == id.0 {
            let was = self.registered;
            self.registered = false;
            was
        } else {
            false
        }
    }

    /// Notes that the client has stopped reading, if it is this one.
    fn hang_up(&mut self, id: ClientId)
        ensures
            final(self)@ == old(self)@.hung_up(id),
    {
        if self.id.0 == id.0 {
            self.open = false;
            self.queue = Vec::new();
            assert(frame_views(self.queue@) =~= Seq::empty());
        }
    }
}

/// The views of a list without its `i`-th element.
proof fn lemma_views_removed(channels: Seq<Channel>, i: int)
    requires
        0 <= i < channels.len(),
    ensures
        channel_views(channels.remove(i)) == channel_views(channels).remove(i),
{
    assert(channel_views(channels.remove(i)) =~= channel_views(channels).remove(i));
}

impl StreamState {
    /// A hub that nothing has been published to.
    pub fn new() -> (r: StreamState)
        ensures
            r@ == empty_hub(),
    {
        let r = StreamState {
            codec: None,
            last_keyframe: None,
            camera_identity: None,
            channels: Vec::new(),
            next_client_id: FIRST_CLIENT_ID,
        };
        assert(r@.channels =~= Seq::empty());
        r
    }

    /// Replaces the codec parameters.
    pub fn publish_config(&mut self, config: CodecParams)
        ensures
            final(self)@ == (HubView { codec: Some(config@), ..old(self)@ }),
    {
        self.codec = Some(config);
    }

    /// Replaces the camera's identity.
    pub fn publish_camera_identity(&mut self, identity: CameraIdentity)
        ensures
            final(self)@ == (HubView { camera_identity: Some(identity@), ..old(self)@ }),
    {
        self.camera_identity = Some(identity);
    }

    /// Offers a frame to every client, and keeps it if it is a keyframe. A client without room for
    /// it, or one that has left, is let go and named in the outcome.
    pub fn publish_frame(&mut self, frame: Frame) -> (r: PublishOutcome)
        ensures
            final(self)@ == old(self)@.with_frame(frame@),
            r.dropped_client_ids@ == dropped_ids(old(self)@.channels),
    {
        if frame.is_keyframe {
            self.last_keyframe = Some(frame.duplicate());
        }
        let ghost before = channel_views(self.channels@);
        let ghost kept = self@;
        let mut dropped: Vec<ClientId> = Vec::new();
        let mut i: usize = 0;
        let ghost mut k: int = 0;
        assert(before.take(0) =~= Seq::empty());
        assert(channel_views(self.channels@).take(0) =~= Seq::empty());
        while i < self.channels.len()
            invariant
                i <= self.channels@.len(),
                0 <= k <= before.len(),
                self.channels@.len() - i == before.len() - k,
                channel_views(self.channels@).take(i as int) == all_offered(before.take(k), frame@),
                channel_views(self.channels@).skip(i as int) == before.skip(k),
                dropped@ == dropped_ids(before.take(k)),
                (HubView { channels: before, ..self@ }) == kept,
            decreases self.channels@.len() - i,
        {
            let ghost views = channel_views(self.channels@);
            proof {
                assert(views.skip(i as int)[0] == views[i as int]);
                assert(before.skip(k)[0] == before[k]);
                assert(before.take(k + 1).drop_last() =~= before.take(k));
                assert(before.take(k + 1).last() == before[k]);
            }
            let id = self.channels[i].id;
            let is_dropped = self.channels[i].offer(&frame);
            let ghost c = before[k].offered(frame@);
            proof {
                assert(channel_views(self.channels@) =~= views.update(i as int, c));
                assert(before.skip(k + 1) =~= before.skip(k).skip(1));
                assert(views.skip(i + 1) =~= views.skip(i as int).skip(1));
            }
            if is_dropped {
                dropped.push(id);
            }
            if self.channels[i].is_held() {
                proof {
                    assert(channel_views(self.channels@).take(i + 1) =~= views.take(i as int).push(c));
                    assert(channel_views(self.channels@).skip(i + 1) =~= views.skip(i + 1));
                }
                i += 1;
            } else {
                proof {
                    lemma_views_removed(self.channels@, i as int);
                }
                self.channels.remove(i);
                proof {
                    assert(channel_views(self.channels@).take(i as int) =~= views.take(i as int));
                    assert(channel_views(self.channels@).skip(i as int) =~= views.skip(i + 1));
                }
            }
            proof {
                k = k + 1;
            }
        }
        proof {
            assert(before.take(before.len() as int) =~= before);
            assert(channel_views(self.channels@).take(i as int) =~= channel_views(self.channels@));
            assert(self@ =~= old(self)@.with_frame(frame@));
        }
        PublishOutcome { dropped_client_ids: dropped }
    }

    /// Adds a client and gives its number. Its queue begins with the last keyframe, if there is one.
    pub fn add_client(&mut self) -> (r: ClientId)
        ensures
            r == ClientId(old(self)@.next_client_id),
            final(self)@ == old(self)@.with_client(),
    {
        let id = ClientId(self.next_client_id);
        self.next_client_id = if self.next_client_id == u64::MAX {
            FIRST_CLIENT_ID
        } else {
            self.next_client_id + 1
        };
        let mut queue: Vec<Frame> = Vec::new();
        assert(frame_views(queue@) =~= Seq::empty());
        if let Some(keyframe) = &self.last_keyframe {
            queue.push(keyframe.duplicate());
            assert(frame_views(queue@) =~= seq![keyframe@]);
        }
        let ghost before = channel_views(self.channels@);
        let channel = Channel { id, queue, registered: true, open: true };
        let ghost joined = channel@;
        self.channels.push(channel);
        proof {
            assert(joined =~= old(self)@.joining());
            assert(channel_views(self.channels@) =~= before.push(joined));
            assert(self@ =~= old(self)@.with_client());
        }
        id
    }

    /// Lets a client go; gives whether it was there.
    pub fn remove_client(&mut self, id: ClientId) -> (r: bool)
        ensures
            final(self)@ == (HubView { channels: all_released(old(self)@.channels, id), ..old(self)@ }),
            r == is_registered(old(self)@.channels, id),
    {
        let ghost before = channel_views(self.channels@);
        let ghost kept = self@;
        let mut found = false;
        let mut i: usize = 0;
        let ghost mut k: int = 0;
        assert(before.take(0) =~= Seq::empty());
        assert(channel_views(self.channels@).take(0) =~= Seq::empty());
        while i < self.channels.len()
            invariant
                i <= self.channels@.len(),
                0 <= k <= before.len(),
                self.channels@.len() - i == before.len() - k,
                channel_views(self.channels@).take(i as int) == all_released(before.take(k), id),
                channel_views(self.channels@).skip(i as int) == before.skip(k),
                found == (exists|j: int|
                    0 <= j < k && (#[trigger] before[j]).id == id && before[j].registered),
                (HubView { channels: before, ..self@ }) == kept,
            decreases self.channels@.len() - i,
        {
            let ghost views = channel_views(self.channels@);
            proof {
                assert(views.skip(i as int)[0] == views[i as int]);
                assert(before.skip(k)[0] == before[k]);
                assert(before.take(k + 1).drop_last() =~= before.take(k));
                assert(before.take(k + 1).last() == before[k]);
            }
            if self.channels[i].release(id) {
                found = true;
            }
            let ghost c = before[k].released(id);
            proof {
                assert(channel_views(self.channels@) =~= views.update(i as int, c));
                assert(before.skip(k + 1) =~= before.skip(k).skip(1));
                assert(views.skip(i + 1) =~= views.skip(i as int).skip(1));
            }
            if self.channels[i].is_held() {
                proof {
                    assert(channel_views(self.channels@).take(i + 1) =~= views.take(i as int).push(c));
                    assert(channel_views(self.channels@).skip(i + 1) =~= views.skip(i + 1));
                }
                i += 1;
            } else {
                proof {
                    lemma_views_removed(self.channels@, i as int);
                }
                self.channels.remove(i);
                proof {
                    assert(channel_views(self.channels@).take(i as int) =~= views.take(i as int));
                    assert(channel_views(self.channels@).skip(i as int) =~= views.skip(i + 1));
                }
            }
            proof {
                k = k + 1;
            }
        }
        proof {
            assert(before.take(before.len() as int) =~= before);
            assert(channel_views(self.channels@).take(i as int) =~= channel_views(self.channels@));
            assert(self@ =~= HubView { channels: all_released(old(self)@.channels, id), ..old(self)@ });
        }
        found
    }

    /// Notes that a client has stopped reading. The next frame that is published lets it go.
    pub fn disconnect(&mut self, id: ClientId)
        ensures
            final(self)@ == (HubView { channels: all_hung_up(old(self)@.channels, id), ..old(self)@ }),
    {
        let ghost before = channel_views(self.channels@);
        let ghost kept = self@;
        let mut i: usize = 0;
        let ghost mut k: int = 0;
        assert(before.take(0) =~= Seq::empty());
        assert(channel_views(self.channels@).take(0) =~= Seq::empty());
        while i < self.channels.len()
            invariant
                i <= self.channels@.len(),
                0 <= k <= before.len(),
                self.channels@.len() - i == before.len() - k,
                channel_views(self.channels@).take(i as int) == all_hung_up(before.take(k), id),
                channel_views(self.channels@).skip(i as int) == before.skip(k),
                (HubView { channels: before, ..self@ }) == kept,
            decreases self.channels@.len() - i,
        {
            let ghost views = channel_views(self.channels@);
            proof {
                assert(views.skip(i as int)[0] == views[i as int]);
                assert(before.skip(k)[0] == before[k]);
                assert(before.take(k + 1).drop_last() =~= before.take(k));
                assert(before.take(k + 1).last() == before[k]);
            }
            self.channels[i].hang_up(id);
            let ghost c = before[k].hung_up(id);
            proof {
                assert(channel_views(self.channels@) =~= views.update(i as int, c));
                assert(before.skip(k + 1) =~= before.skip(k).skip(1));
                assert(views.skip(i + 1) =~= views.skip(i as int).skip(1));
            }
            if self.channels[i].is_held() {
                proof {
                    assert(channel_views(self.channels@).take(i + 1) =~= views.take(i as int).push(c));
                    assert(channel_views(self.channels@).skip(i + 1) =~= views.skip(i + 1));
                }
                i += 1;
            } else {
                proof {
                    lemma_views_removed(self.channels@, i as int);
                }
                self.channels.remove(i);
                proof {
                    assert(channel_views(self.channels@).take(i as int) =~= views.take(i as int));
                    assert(channel_views(self.channels@).skip(i as int) =~= views.skip(i + 1));
                }
            }
            proof {
                k = k + 1;
            }
        }
        proof {
            assert(before.take(before.len() as int) =~= before);
            assert(channel_views(self.channels@).take(i as int) =~= channel_views(self.channels@));
            assert(self@ =~= HubView { channels: all_hung_up(old(self)@.channels, id), ..old(self)@ });
        }
    }

    /// Takes the next frame from a client's queue.
    pub fn receive(&mut self, id: ClientId) -> (r: Received)
        ensures
            match channel_of(old(self)@.channels, id) {
                None => r is Disconnected && final(self)@ == old(self)@,
                Some(i) => {
                    let c = old(self)@.channels[i];
                    if c.queue.len() > 0 {
                        &&& r matches Received::Frame(f) && f@ == c.queue[0]
                        &&& final(self)@ == (HubView {
                            channels: old(self)@.channels.update(
                                i,
                                ChannelView { queue: c.queue.skip(1), ..c },
                            ),
                            ..old(self)@
                        })
                    } else {
                        &&& final(self)@ == old(self)@
                        &&& c.registered ==> r is Empty
                        &&& !c.registered ==> r is Disconnected
                    }
                },
            },
    {
        let ghost before = channel_views(self.channels@);
        let mut i: usize = 0;
        assert(before.take(0) =~= Seq::empty());
        while i < self.channels.len()
            invariant
                i <= self.channels@.len(),
                *self == *old(self),
                before == channel_views(self.channels@),
                channel_of(before.take(i as int), id) is None,
            decreases self.channels@.len() - i,
        {
            proof {
                assert(before.take(i + 1).drop_last() =~= before.take(i as int));
                assert(before.take(i + 1).last() == before[i as int]);
            }
            if self.channels[i].id.0 == id.0 {
                proof {
                    lemma_channel_of_prefix(before, i + 1, id);
                }
                if self.channels[i].queue.len() > 0 {
                    let ghost c = before[i as int];
                    let frame = self.channels[i].queue.remove(0);
                    proof {
                        assert(self.channels@[i as int]@ =~= ChannelView { queue: c.queue.skip(1), ..c });
                        assert(channel_views(self.channels@) =~= before.update(
                            i as int,
                            ChannelView { queue: c.queue.skip(1), ..c },
                        ));
                    }
                    return Received::Frame(frame);
                }
                return if self.channels[i].registered {
                    Received::Empty
                } else {
                    Received::Disconnected
                };
            }
            i += 1;
        }
        assert(before.take(before.len() as int) =~= before);
        Received::Disconnected
    }

    /// The codec parameters, if any have been published.
    pub fn codec(&self) -> (r: Option<CodecParams>)
        ensures
            match self@.codec {
                None => r is None,
                Some(c) => r matches Some(p) && p@ == c,
            },
    {
        match &self.codec {
            Some(c) => Some(c.duplicate()),
            None => None,
        }
    }

    /// The camera's identity, if it has been published.
    pub fn camera_identity(&self) -> (r: Option<CameraIdentity>)
        ensures
            match self@.camera_identity {
                None => r is None,
                Some(c) => r matches Some(i) && i@ == c,
            },
    {
        match &self.camera_identity {
            Some(c) => Some(
                CameraIdentity { serial: c.serial.as_str().to_owned(), model: c.model.as_str().to_owned() },
            ),
            None => None,
        }
    }

    /// The stream's size and rate; none before codec parameters have been published.
    pub fn snapshot_metadata(&self) -> (r: Option<StreamSnapshot>)
        ensures
            r == (match self@.codec {
                None => None,
                Some(c) => Some(StreamSnapshot { width: c.width, height: c.height, fps: c.fps }),
            }),
    {
        match &self.codec {
            Some(c) => Some(StreamSnapshot { width: c.width, height: c.height, fps: c.fps }),
            None => None,
        }
    }

    /// How many clients the hub delivers to.
    pub fn client_count(&self) -> (r: usize)
        ensures
            r == registered_count(self@.channels),
    {
        let ghost views = channel_views(self.channels@);
        let mut count: usize = 0;
        let mut i: usize = 0;
        assert(views.take(0) =~= Seq::empty());
        while i < self.channels.len()
            invariant
                i <= self.channels@.len(),
                views == channel_views(self.channels@),
                count <= i,
                count == registered_count(views.take(i as int)),
            decreases self.channels@.len() - i,
        {
            proof {
                assert(views.take(i + 1).drop_last() =~= views.take(i as int));
                assert(views.take(i + 1).last() == views[i as int]);
            }
            if self.channels[i].registered {
                count += 1;
            }
            i += 1;
        }
        assert(views.take(views.len() as int) =~= views);
        count
    }
}

impl Default for StreamState {
    fn default() -> (r: StreamState)
        ensures
            r@ == empty_hub(),
    {
        StreamState::new()
    }
}

/// A queue that is found in a prefix is the one that is found.
proof fn lemma_channel_of_prefix(channels: Seq<ChannelView>, n: int, id: ClientId)
    requires
        0 <= n <= channels.len(),
        channel_of(channels.take(n), id) is Some,
    ensures
        channel_of(channels, id) == channel_of(channels.take(n), id),
    decreases channels.len() - n,
{
    if n < channels.len() {
        assert(channels.take(n + 1).drop_last() =~= channels.take(n));
        lemma_channel_of_prefix(channels, n + 1, id);
    } else {
        assert(channels.take(n) =~= channels);
    }
}

} // verus!
