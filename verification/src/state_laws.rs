//! Laws of the hub as it is used: what was published is given back, clients are counted, and frames are
//! received in order.

use crate::camera_identity::CameraIdentity;
use crate::stream_state::{
    channel_of, registered_count, ClientId, CodecParams, Frame, Received, StreamSnapshot, StreamState,
};
use vstd::prelude::*;

verus! {

/// The codec parameters that were published are given back, and the stream's size and rate are theirs;
/// nothing else changes.
pub proof fn law_published_parameters_are_given_back(
    hub: &mut StreamState,
    config: CodecParams,
    back: Option<CodecParams>,
    snapshot: Option<StreamSnapshot>,
)
    requires
        call_ensures(StreamState::publish_config, (hub, config), ()),
        call_ensures(StreamState::codec, (&*final(hub),), back),
        call_ensures(StreamState::snapshot_metadata, (&*final(hub),), snapshot),
    ensures
        back matches Some(c) && c.sps@ == config.sps@ && c.pps@ == config.pps@ && c.profile_indication
            == config.profile_indication && c.profile_compat == config.profile_compat && c.level_indication
            == config.level_indication && c.width == config.width && c.height == config.height && c.fps == config.fps,
        snapshot matches Some(s) && s.width == config.width && s.height == config.height && s.fps == config.fps,
        final(hub)@.channels == old(hub)@.channels,
        final(hub)@.last_keyframe == old(hub)@.last_keyframe,
        final(hub)@.camera_identity == old(hub)@.camera_identity,
        final(hub)@.next_client_id == old(hub)@.next_client_id,
{
    assert(back->0@ == config@);
}

/// The identity that was published is given back; nothing else changes.
pub proof fn law_published_identity_is_given_back(
    hub: &mut StreamState,
    identity: CameraIdentity,
    back: Option<CameraIdentity>,
)
    requires
        call_ensures(StreamState::publish_camera_identity, (hub, identity), ()),
        call_ensures(StreamState::camera_identity, (&*final(hub),), back),
    ensures
        back matches Some(c) && c.serial@ == identity.serial@ && c.model@ == identity.model@,
        final(hub)@.codec == old(hub)@.codec,
        final(hub)@.channels == old(hub)@.channels,
        final(hub)@.last_keyframe == old(hub)@.last_keyframe,
        final(hub)@.next_client_id == old(hub)@.next_client_id,
{
    assert(back->0@ == identity@);
}

/// A new hub has nothing to give, and nobody to deliver to.
pub proof fn law_new_hub_has_nothing(
    hub: StreamState,
    codec: Option<CodecParams>,
    identity: Option<CameraIdentity>,
    snapshot: Option<StreamSnapshot>,
    count: usize,
)
    requires
        call_ensures(StreamState::new, (), hub),
        call_ensures(StreamState::codec, (&hub,), codec),
        call_ensures(StreamState::camera_identity, (&hub,), identity),
        call_ensures(StreamState::snapshot_metadata, (&hub,), snapshot),
        call_ensures(StreamState::client_count, (&hub,), count),
    ensures
        codec is None && identity is None && snapshot is None && count == 0,
{
}

/// Each client that joins counts for one, and has a number that the next one does not have.
pub proof fn law_clients_are_counted(
    hub: &mut StreamState,
    later: &mut StreamState,
    before: usize,
    after: usize,
    first: ClientId,
    second: ClientId,
)
    requires
        call_ensures(StreamState::client_count, (&*old(hub),), before),
        call_ensures(StreamState::add_client, (hub,), first),
        call_ensures(StreamState::client_count, (&*final(hub),), after),
        *later == *final(hub),
        call_ensures(StreamState::add_client, (later,), second),
    ensures
        after == before + 1,
        first != second,
{
    let joined = old(hub)@.joining();
    assert(old(hub)@.channels.push(joined).drop_last() =~= old(hub)@.channels);
    assert(registered_count(old(hub)@.channels.push(joined)) == registered_count(old(hub)@.channels) + 1);
}

/// A client receives its frames in the order in which they wait, each once.
pub proof fn law_frames_are_received_in_order(
    hub: &mut StreamState,
    later: &mut StreamState,
    id: ClientId,
    i: int,
    first: Received,
    second: Received,
)
    requires
        channel_of(old(hub)@.channels, id) == Some(i),
        0 <= i < old(hub)@.channels.len(),
        old(hub)@.channels[i].queue.len() >= 2,
        call_ensures(StreamState::receive, (hub, id), first),
        *later == *final(hub),
        channel_of(old(later)@.channels, id) == Some(i),
        call_ensures(StreamState::receive, (later, id), second),
    ensures
        first matches Received::Frame(f) && f@ == old(hub)@.channels[i].queue[0],
        second matches Received::Frame(f) && f@ == old(hub)@.channels[i].queue[1],
        final(later)@.channels[i].queue == old(hub)@.channels[i].queue.skip(2),
        final(later)@.codec == old(hub)@.codec,
        final(later)@.last_keyframe == old(hub)@.last_keyframe,
{
    let q = old(hub)@.channels[i].queue;
    assert(q.skip(1).skip(1) =~= q.skip(2));
}

/// A duplicate is the same frame.
pub proof fn law_duplicate_is_the_same(frame: &Frame, r: Frame)
    requires
        call_ensures(Frame::duplicate, (frame,), r),
    ensures
        r.is_keyframe == frame.is_keyframe,
        r.timestamp_ms == frame.timestamp_ms,
        r@.nalus == frame@.nalus,
{
    assert(r@ == frame@);
}

} // verus!
