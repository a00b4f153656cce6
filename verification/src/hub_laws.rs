//! What holds of the hub whatever is published and whoever joins, reads or leaves.

use crate::stream_state::{
    all_hung_up, all_offered, all_released, dropped_ids, empty_hub, is_registered, kept_after, ChannelView, ClientId,
    FrameView, HubView, CLIENT_CHANNEL_CAPACITY, FIRST_CLIENT_ID,
};
use vstd::prelude::*;

verus! {

/// Whether no queue is over its capacity.
pub open spec fn is_bounded(channels: Seq<ChannelView>) -> bool {
    forall|i: int| 0 <= i < channels.len() ==> (#[trigger] channels[i]).queue.len() <= CLIENT_CHANNEL_CAPACITY
}

/// Whether every queue has a number between the first one and `next`, and no two have the same.
pub open spec fn has_own_ids(channels: Seq<ChannelView>, next: u64) -> bool {
    &&& FIRST_CLIENT_ID <= next
    &&& forall|i: int| 0 <= i < channels.len() ==> FIRST_CLIENT_ID <= (#[trigger] channels[i]).id.0 < next
    &&& forall|i: int, j: int|
        0 <= i < j < channels.len() ==> (#[trigger] channels[i]).id != (#[trigger] channels[j]).id
}

/// Whether a change leaves numbers alone and keeps queues within their capacity.
spec fn is_orderly(change: spec_fn(ChannelView) -> ChannelView) -> bool {
    forall|c: ChannelView|
        (#[trigger] change(c)).id == c.id && (c.queue.len() <= CLIENT_CHANNEL_CAPACITY ==> change(
            c,
        ).queue.len() <= CLIENT_CHANNEL_CAPACITY)
}

proof fn lemma_orderly_change(
    channels: Seq<ChannelView>,
    change: spec_fn(ChannelView) -> ChannelView,
    next: u64,
)
    requires
        is_orderly(change),
        is_bounded(channels),
        has_own_ids(channels, next),
    ensures
        is_bounded(kept_after(channels, change)),
        has_own_ids(kept_after(channels, change), next),
        forall|i: int|
            0 <= i < kept_after(channels, change).len() ==> exists|j: int|
                0 <= j < channels.len() && #[trigger] change(channels[j]) == (#[trigger] kept_after(
                    channels,
                    change,
                )[i]),
    decreases channels.len(),
{
    if channels.len() > 0 {
        let head = channels.drop_last();
        assert forall|i: int| 0 <= i < head.len() implies (#[trigger] head[i]).queue.len()
            <= CLIENT_CHANNEL_CAPACITY && FIRST_CLIENT_ID <= head[i].id.0 < next by {
            assert(head[i] == channels[i]);
        }
        assert forall|i: int, j: int| 0 <= i < j < head.len() implies (#[trigger] head[i]).id != (
        #[trigger] head[j]).id by {
            assert(channels[i].id != channels[j].id);
        }
        lemma_orderly_change(head, change, next);
        let before = kept_after(head, change);
        let after = kept_after(channels, change);
        let last = channels.len() - 1;
        assert(channels[last] == channels.last());
        assert forall|i: int| 0 <= i < after.len() implies exists|j: int|
            0 <= j < channels.len() && #[trigger] change(channels[j]) == (#[trigger] after[i]) by {
            if i < before.len() {
                let j = choose|j: int| 0 <= j < head.len() && #[trigger] change(head[j]) == before[i];
                assert(change(channels[j]) == after[i]);
            } else {
                assert(change(channels[last]) == after[i]);
            }
        }
        assert forall|i: int, j: int| 0 <= i < j < after.len() implies (#[trigger] after[i]).id != (
        #[trigger] after[j]).id by {
            if j == before.len() {
                let k = choose|k: int| 0 <= k < head.len() && #[trigger] change(head[k]) == before[i];
                assert(channels[k].id == before[i].id);
                assert(channels[last].id == after[j].id);
            } else {
                assert(before[i].id != before[j].id);
            }
        }
        assert forall|i: int| 0 <= i < after.len() implies FIRST_CLIENT_ID <= (
        #[trigger] after[i]).id.0 < next && after[i].queue.len() <= CLIENT_CHANNEL_CAPACITY by {
            if i < before.len() {
                assert(FIRST_CLIENT_ID <= before[i].id.0 < next);
                assert(before[i].queue.len() <= CLIENT_CHANNEL_CAPACITY);
            } else {
                assert(after[i] == change(channels[last]));
            }
        }
    }
}

/// Whatever happens to a hub, every queue stays within its capacity, no two clients have the same
/// number, and none has the number 0: when a frame is published, when a client is let go, and when one leaves.
pub proof fn law_hub_stays_orderly(h: HubView, f: FrameView, id: ClientId)
    requires
        is_bounded(h.channels),
        has_own_ids(h.channels, h.next_client_id),
    ensures
        is_bounded(h.with_frame(f).channels),
        has_own_ids(h.with_frame(f).channels, h.next_client_id),
        is_bounded(all_released(h.channels, id)),
        has_own_ids(all_released(h.channels, id), h.next_client_id),
        is_bounded(all_hung_up(h.channels, id)),
        has_own_ids(all_hung_up(h.channels, id), h.next_client_id),
{
    lemma_orderly_change(h.channels, |c: ChannelView| c.offered(f), h.next_client_id);
    lemma_orderly_change(h.channels, |c: ChannelView| c.released(id), h.next_client_id);
    lemma_orderly_change(h.channels, |c: ChannelView| c.hung_up(id), h.next_client_id);
}

/// A new hub is orderly.
pub proof fn law_new_hub_is_orderly()
    ensures
        is_bounded(empty_hub().channels),
        has_own_ids(empty_hub().channels, empty_hub().next_client_id),
{
}

/// No client ever gets the number 0: a hub begins above it, and so does whatever number comes next.
pub proof fn law_number_zero_is_never_given(h: HubView)
    requires
        h.next_client_id != 0,
    ensures
        empty_hub().next_client_id != 0,
        h.joining().id != ClientId(0),
        h.with_client().next_client_id != 0,
{
}

/// A client that joins gets a number that no other has, as long as the numbers last.
pub proof fn law_joining_keeps_order(h: HubView)
    requires
        is_bounded(h.channels),
        has_own_ids(h.channels, h.next_client_id),
        h.next_client_id < u64::MAX,
    ensures
        is_bounded(h.with_client().channels),
        has_own_ids(h.with_client().channels, h.with_client().next_client_id),
{
}

/// A client that was let go is delivered nothing more, and nobody else is touched.
pub proof fn law_removed_client_is_gone(h: HubView, id: ClientId)
    requires
        is_bounded(h.channels),
        has_own_ids(h.channels, h.next_client_id),
    ensures
        !is_registered(all_released(h.channels, id), id),
        forall|other: ClientId|
            other != id ==> is_registered(all_released(h.channels, id), other) == is_registered(
                h.channels,
                other,
            ),
{
    let change = |c: ChannelView| c.released(id);
    lemma_orderly_change(h.channels, change, h.next_client_id);
    let after = all_released(h.channels, id);
    assert forall|i: int| 0 <= i < after.len() && (#[trigger] after[i]).id == id implies !after[i].registered by {
        let j = choose|j: int| 0 <= j < h.channels.len() && #[trigger] change(h.channels[j]) == after[i];
        assert(h.channels[j].released(id) == after[i]);
    }
    assert forall|other: ClientId| other != id implies is_registered(after, other) == is_registered(
        h.channels,
        other,
    ) by {
        if is_registered(after, other) {
            let i = choose|i: int| 0 <= i < after.len() && (#[trigger] after[i]).id == other && after[i].registered;
            let j = choose|j: int| 0 <= j < h.channels.len() && #[trigger] change(h.channels[j]) == after[i];
            assert(h.channels[j].id == other && h.channels[j].registered);
        }
        if is_registered(h.channels, other) {
            lemma_released_keeps(h.channels, id, other);
        }
    }
}

proof fn lemma_released_keeps(channels: Seq<ChannelView>, id: ClientId, other: ClientId)
    requires
        other != id,
        is_registered(channels, other),
    ensures
        is_registered(all_released(channels, id), other),
    decreases channels.len(),
{
    let i = choose|i: int|
        0 <= i < channels.len() && (#[trigger] channels[i]).id == other && channels[i].registered;
    let head = channels.drop_last();
    let before = all_released(head, id);
    let after = all_released(channels, id);
    let change = |c: ChannelView| c.released(id);
    assert(all_released(channels, id) == kept_after(channels, change));
    assert(all_released(head, id) == kept_after(head, change));
    if i < channels.len() - 1 {
        assert(head[i].id == other && head[i].registered);
        lemma_released_keeps(head, id, other);
        let k = choose|k: int| 0 <= k < before.len() && (#[trigger] before[k]).id == other && before[k].registered;
        assert(after[k] == before[k]);
    } else {
        assert(channels.last().released(id) == channels.last());
        assert(after.last() == channels.last());
        assert(after[after.len() - 1].id == other);
    }
}

/// A client that joins can decode at once: its queue begins with the last keyframe that was
/// published, whatever else was published after it.
pub proof fn law_joining_client_gets_the_last_keyframe(h: HubView, key: FrameView, others: Seq<FrameView>)
    requires
        key.is_keyframe,
        forall|i: int| 0 <= i < others.len() ==> !(#[trigger] others[i]).is_keyframe,
    ensures
        all_published(h.with_frame(key), others).joining().queue == seq![key],
    decreases others.len(),
{
    lemma_keyframe_stays(h.with_frame(key), others);
}

/// The hub after a list of frames.
pub open spec fn all_published(h: HubView, frames: Seq<FrameView>) -> HubView
    decreases frames.len(),
{
    if frames.len() == 0 {
        h
    } else {
        all_published(h, frames.drop_last()).with_frame(frames.last())
    }
}

proof fn lemma_keyframe_stays(h: HubView, others: Seq<FrameView>)
    requires
        forall|i: int| 0 <= i < others.len() ==> !(#[trigger] others[i]).is_keyframe,
    ensures
        all_published(h, others).last_keyframe == h.last_keyframe,
    decreases others.len(),
{
    if others.len() > 0 {
        assert forall|i: int| 0 <= i < others.drop_last().len() implies !(#[trigger] others.drop_last()[i]).is_keyframe by {
            assert(others.drop_last()[i] == others[i]);
        }
        lemma_keyframe_stays(h, others.drop_last());
        assert(!others[others.len() - 1].is_keyframe);
    }
}

/// A queue after a list of frames was offered to it.
pub open spec fn offered_all(c: ChannelView, frames: Seq<FrameView>) -> ChannelView
    decreases frames.len(),
{
    if frames.len() == 0 {
        c
    } else {
        offered_all(c, frames.drop_last()).offered(frames.last())
    }
}

/// A client that keeps up gets every frame, in the order in which they were published.
pub proof fn law_frames_arrive_in_order(c: ChannelView, frames: Seq<FrameView>)
    requires
        c.registered,
        c.open,
        c.queue.len() + frames.len() <= CLIENT_CHANNEL_CAPACITY,
    ensures
        offered_all(c, frames) == (ChannelView { queue: c.queue + frames, ..c }),
    decreases frames.len(),
{
    if frames.len() == 0 {
        assert(c.queue + frames =~= c.queue);
    } else {
        law_frames_arrive_in_order(c, frames.drop_last());
        assert((c.queue + frames.drop_last()).push(frames.last()) =~= c.queue + frames);
    }
}

/// A client that falls a full queue behind is let go at the next frame, but can still read what was
/// waiting for it; from then on nothing more is put into its queue.
pub proof fn law_slow_client_is_let_go(c: ChannelView, f: FrameView, later: FrameView)
    requires
        c.registered,
        c.queue.len() >= CLIENT_CHANNEL_CAPACITY,
    ensures
        c.offered(f) == (ChannelView { registered: false, ..c }),
        c.offered(f).offered(later) == c.offered(f),
{
}

/// A queue that is held after a change is among those that are kept.
proof fn lemma_held_queue_is_kept(
    channels: Seq<ChannelView>,
    change: spec_fn(ChannelView) -> ChannelView,
    i: int,
)
    requires
        0 <= i < channels.len(),
        change(channels[i]).registered || change(channels[i]).open,
    ensures
        kept_after(channels, change).contains(change(channels[i])),
    decreases channels.len(),
{
    let head = channels.drop_last();
    let before = kept_after(head, change);
    let after = kept_after(channels, change);
    if i < head.len() {
        assert(head[i] == channels[i]);
        lemma_held_queue_is_kept(head, change, i);
        let j = choose|j: int| 0 <= j < before.len() && before[j] == change(channels[i]);
        assert(after[j] == before[j]);
    } else {
        assert(after[after.len() - 1] == change(channels[i]));
    }
}

/// The clients that a frame drops are the registered ones that have left or have no room.
proof fn lemma_dropped(channels: Seq<ChannelView>, i: int)
    requires
        0 <= i < channels.len(),
        channels[i].registered,
        !channels[i].open || channels[i].queue.len() >= 64,
    ensures
        dropped_ids(channels).contains(channels[i].id),
    decreases channels.len(),
{
    let head = channels.drop_last();
    let before = dropped_ids(head);
    let after = dropped_ids(channels);
    if i < head.len() {
        assert(head[i] == channels[i]);
        lemma_dropped(head, i);
        let j = choose|j: int| 0 <= j < before.len() && before[j] == channels[i].id;
        assert(after[j] == before[j]);
    } else {
        assert(after[after.len() - 1] == channels[i].id);
    }
}

proof fn lemma_dropped_only(channels: Seq<ChannelView>, k: int)
    requires
        0 <= k < dropped_ids(channels).len(),
    ensures
        exists|i: int|
            0 <= i < channels.len() && (#[trigger] channels[i]).id == dropped_ids(channels)[k]
                && channels[i].registered && (!channels[i].open || channels[i].queue.len() >= 64),
    decreases channels.len(),
{
    if channels.len() > 0 {
        let head = channels.drop_last();
        if k < dropped_ids(head).len() {
            lemma_dropped_only(head, k);
            let i = choose|i: int|
                0 <= i < head.len() && (#[trigger] head[i]).id == dropped_ids(head)[k] && head[i].registered && (
                !head[i].open || head[i].queue.len() >= 64);
            assert(channels[i] == head[i]);
        } else {
            assert(channels[channels.len() - 1] == channels.last());
        }
    }
}

/// A frame that is published is the last thing in the queue of every registered client that still
/// reads and has fewer than 64 frames waiting. Every other registered client is named as dropped and
/// is registered no more; nobody else is named. A client that was let go before keeps its queue. A
/// keyframe is kept for those who join; of the rest of the hub nothing changes.
pub proof fn law_frame_goes_to_everyone(h: HubView, f: FrameView, i: int)
    requires
        is_bounded(h.channels),
        has_own_ids(h.channels, h.next_client_id),
        0 <= i < h.channels.len(),
    ensures
        ({
            let after = h.with_frame(f);
            let c = h.channels[i];
            let dropped = dropped_ids(h.channels).contains(c.id);
            &&& c.registered && c.open && c.queue.len() < 64 ==> after.channels.contains(
                ChannelView { queue: c.queue.push(f), ..c },
            ) && !dropped
            &&& c.registered && (!c.open || c.queue.len() >= 64) ==> dropped && !is_registered(after.channels, c.id)
            &&& c.registered && c.open && c.queue.len() >= 64 ==> after.channels.contains(
                ChannelView { registered: false, ..c },
            )
            &&& !c.registered ==> !dropped && !is_registered(after.channels, c.id)
            &&& !c.registered && c.open ==> after.channels.contains(c)
            &&& after.last_keyframe == (if f.is_keyframe { Some(f) } else { h.last_keyframe })
            &&& after.codec == h.codec
            &&& after.camera_identity == h.camera_identity
            &&& after.next_client_id == h.next_client_id
        }),
{
    let c = h.channels[i];
    let change = |c: ChannelView| c.offered(f);
    let after = all_offered(h.channels, f);
    assert(after == kept_after(h.channels, change));
    lemma_orderly_change(h.channels, change, h.next_client_id);
    if change(c).registered || change(c).open {
        lemma_held_queue_is_kept(h.channels, change, i);
    }
    if c.registered && (!c.open || c.queue.len() >= 64) {
        lemma_dropped(h.channels, i);
    } else if dropped_ids(h.channels).contains(c.id) {
        let k = choose|k: int| 0 <= k < dropped_ids(h.channels).len() && dropped_ids(h.channels)[k] == c.id;
        lemma_dropped_only(h.channels, k);
    }
    if is_registered(after, c.id) {
        let j = choose|j: int| 0 <= j < after.len() && (#[trigger] after[j]).id == c.id && after[j].registered;
        let k = choose|k: int| 0 <= k < h.channels.len() && #[trigger] change(h.channels[k]) == after[j];
        assert(h.channels[k].id == c.id);
        assert(k == i);
    }
}

/// A client that joins has the next number, is registered, and everyone else stays as they were.
pub proof fn law_joining_client_is_registered(h: HubView)
    ensures
        ({
            let after = h.with_client();
            let id = ClientId(h.next_client_id);
            &&& is_registered(after.channels, id)
            &&& after.channels.last().id == id
            &&& after.channels.last().open
            &&& after.channels.drop_last() == h.channels
            &&& forall|other: ClientId|
                other != id ==> is_registered(after.channels, other) == is_registered(h.channels, other)
            &&& h.next_client_id < u64::MAX ==> after.next_client_id == h.next_client_id + 1
            &&& after.codec == h.codec
            &&& after.last_keyframe == h.last_keyframe
            &&& after.camera_identity == h.camera_identity
        }),
{
    let after = h.with_client();
    let id = ClientId(h.next_client_id);
    assert(after.channels[h.channels.len() as int].id == id);
    assert(after.channels.drop_last() =~= h.channels);
    assert forall|other: ClientId| other != id implies is_registered(after.channels, other) == is_registered(
        h.channels,
        other,
    ) by {
        if is_registered(h.channels, other) {
            let i = choose|i: int|
                0 <= i < h.channels.len() && (#[trigger] h.channels[i]).id == other && h.channels[i].registered;
            assert(after.channels[i] == h.channels[i]);
        }
    }
}

/// A client that stops reading loses what waits for it and nothing else changes: everyone else's
/// queue is as it was.
pub proof fn law_leaving_touches_nobody_else(h: HubView, id: ClientId, i: int)
    requires
        0 <= i < h.channels.len(),
    ensures
        ({
            let after = all_hung_up(h.channels, id);
            let c = h.channels[i];
            &&& c.id != id && (c.registered || c.open) ==> after.contains(c)
            &&& c.id == id && c.registered ==> after.contains(
                ChannelView { open: false, queue: Seq::empty(), ..c },
            )
        }),
{
    let change = |c: ChannelView| c.hung_up(id);
    let c = h.channels[i];
    if change(c).registered || change(c).open {
        lemma_held_queue_is_kept(h.channels, change, i);
    }
}

} // verus!
