use flvproxy::camera_identity::CameraIdentity;
use flvproxy::ieee754::Binary32;
use flvproxy::stream_state::{
    ClientId, CodecParams, Frame, PublishOutcome, Received, StreamSnapshot, StreamState, CLIENT_CHANNEL_CAPACITY,
};

fn frame(ts: u32, key: bool) -> Frame {
    Frame { is_keyframe: key, timestamp_ms: ts, nalus: vec![vec![1, 2], vec![3]] }
}

#[test]
fn client_id_is_copy_and_comparable() {
    let a = ClientId(1);
    let b = a;
    assert_eq!(a, b);
    assert_ne!(a, ClientId(2));
}

#[test]
fn frames_arrive_in_order_at_every_client() {
    let mut hub = StreamState::new();
    let a = hub.add_client();
    let b = hub.add_client();
    assert_ne!(a, b);
    assert_eq!(hub.publish_frame(frame(1, false)), PublishOutcome { dropped_client_ids: vec![] });
    hub.publish_frame(frame(2, false));
    for id in [a, b] {
        assert_eq!(hub.receive(id), Received::Frame(frame(1, false)));
        assert_eq!(hub.receive(id), Received::Frame(frame(2, false)));
        assert_eq!(hub.receive(id), Received::Empty);
    }
}

#[test]
fn a_new_client_starts_at_the_last_keyframe() {
    let mut hub = StreamState::new();
    hub.publish_frame(frame(1, true));
    hub.publish_frame(frame(2, false));
    let id = hub.add_client();
    assert_eq!(hub.receive(id), Received::Frame(frame(1, true)));
    assert_eq!(hub.receive(id), Received::Empty);
}

#[test]
fn slow_clients_are_dropped_but_may_finish() {
    let mut hub = StreamState::new();
    let slow = hub.add_client();
    let quick = hub.add_client();
    for i in 0..CLIENT_CHANNEL_CAPACITY as u32 {
        hub.publish_frame(frame(i, false));
        hub.receive(quick);
    }
    assert_eq!(hub.publish_frame(frame(99, false)).dropped_client_ids, vec![slow]);
    assert_eq!(hub.client_count(), 1);
    for i in 0..CLIENT_CHANNEL_CAPACITY as u32 {
        assert_eq!(hub.receive(slow), Received::Frame(frame(i, false)));
    }
    assert_eq!(hub.receive(slow), Received::Disconnected);
    assert_eq!(hub.receive(quick), Received::Frame(frame(99, false)));
}

#[test]
fn clients_that_left_are_dropped() {
    let mut hub = StreamState::new();
    let gone = hub.add_client();
    let removed = hub.add_client();
    hub.disconnect(gone);
    assert!(hub.remove_client(removed));
    assert!(!hub.remove_client(removed));
    assert_eq!(hub.receive(removed), Received::Disconnected);
    assert_eq!(hub.publish_frame(frame(1, false)).dropped_client_ids, vec![gone]);
    assert_eq!(hub.client_count(), 0);
}

#[test]
fn what_is_published_can_be_read() {
    let mut hub = StreamState::new();
    assert_eq!(hub.codec(), None);
    assert_eq!(hub.snapshot_metadata(), None);
    assert_eq!(hub.camera_identity(), None);
    let codec = CodecParams {
        sps: vec![1],
        pps: vec![2],
        profile_indication: 3,
        profile_compat: 4,
        level_indication: 5,
        width: Some(6),
        height: None,
        fps: Some(Binary32 { bits: 7 }),
    };
    hub.publish_config(codec.duplicate());
    assert_eq!(hub.codec(), Some(codec));
    assert_eq!(
        hub.snapshot_metadata(),
        Some(StreamSnapshot { width: Some(6), height: None, fps: Some(Binary32 { bits: 7 }) })
    );
    let identity = CameraIdentity { serial: "s".to_string(), model: "m".to_string() };
    hub.publish_camera_identity(identity.clone());
    assert_eq!(hub.camera_identity(), Some(identity));
}
