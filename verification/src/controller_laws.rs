//! Laws of what a camera and its controller say to each other, read off the messages on the wire.

use crate::json::{lookup, parsed, JsonView};
use crate::json_laws::{is_readable, law_parsing_undoes_emitting};
use crate::protect_controller::{
    change_video_settings, envelope, following, is_time_sync, iso8601, message_frame, message_of, param_agreement,
    AdoptionState, SessionView,
};
use crate::protect_laws::{lemma_answer_payload_is_readable, lemma_envelope_is_readable, lemma_member_names};
use crate::ws::{Opcode, WsFrameView};
use vstd::prelude::*;

verus! {

/// Whether a frame brings a request of the camera: a message with this name and number that expects
/// an answer and answers nothing itself.
pub open spec fn is_request(f: WsFrameView, v: JsonView, name: Seq<char>, id: u64) -> bool {
    &&& f.opcode == Opcode::Text || f.opcode == Opcode::Binary
    &&& parsed(f.payload) matches Ok(w) && w == v
    &&& v.member("functionName"@) == Some(JsonView::Str(name))
    &&& v.member("messageId"@) == Some(JsonView::UInt(id))
    &&& v.member("responseExpected"@) == Some(JsonView::Bool(true))
    &&& v.member("inResponseTo"@) is None || v.member("inResponseTo"@) == Some(JsonView::UInt(0))
}

/// Whether a session that waits for an acknowledgement knows its number.
pub open spec fn is_sound(s: SessionView) -> bool {
    s.adoption_state == AdoptionState::WaitingForParamAgreementAck ==> s.pending_adoption_msg_id != 0
}

/// Whether a frame is a message of the controller with these members, as the camera reads it.
pub open spec fn says(
    f: WsFrameView,
    name: Seq<char>,
    in_response_to: u64,
    id: u64,
    response_expected: bool,
    now: u64,
    payload: JsonView,
) -> bool {
    &&& f.fin
    &&& f.opcode == Opcode::Binary
    &&& parsed(f.payload) matches Ok(w) && {
        &&& w.member("from"@) == Some(JsonView::Str("UniFiVideo"@))
        &&& w.member("to"@) == Some(JsonView::Str("ubnt_avclient"@))
        &&& w.member("functionName"@) == Some(JsonView::Str(name))
        &&& w.member("inResponseTo"@) == Some(JsonView::UInt(in_response_to))
        &&& w.member("messageId"@) == Some(JsonView::UInt(id))
        &&& w.member("responseExpected"@) == Some(JsonView::Bool(response_expected))
        &&& w.member("timeStamp"@) == Some(JsonView::Str(iso8601(now as int)))
        &&& w.member("payload"@) == Some(payload)
    }
}

/// The first entry with a key, where it is one of the first few.
proof fn lemma_lookup(e: Seq<(Seq<char>, JsonView)>, i: int, key: Seq<char>)
    requires
        0 <= i < e.len(),
        e[i].0 == key,
        forall|j: int| 0 <= j < i ==> (#[trigger] e[j]).0 != key,
    ensures
        lookup(e, key) == Some(e[i].1),
    decreases i,
{
    if i > 0 {
        assert(e[0].0 != key);
        assert forall|j: int| 0 <= j < i - 1 implies (#[trigger] e.skip(1)[j]).0 != key by {
            assert(e.skip(1)[j] == e[j + 1]);
        }
        lemma_lookup(e.skip(1), i - 1, key);
    }
}

proof fn lemma_envelope_says(
    name: Seq<char>,
    in_response_to: u64,
    id: u64,
    payload: JsonView,
    response_expected: bool,
    now: u64,
)
    requires
        is_readable(payload),
    ensures
        says(
            message_frame(envelope(name, in_response_to, id, payload, response_expected, now)),
            name,
            in_response_to,
            id,
            response_expected,
            now,
            payload,
        ),
{
    let v = envelope(name, in_response_to, id, payload, response_expected, now);
    let e = v->Object_0;
    lemma_envelope_is_readable(name, in_response_to, id, payload, response_expected, now);
    law_parsing_undoes_emitting(v);
    lemma_member_names();
    lemma_lookup(e, 0, "from"@);
    lemma_lookup(e, 1, "functionName"@);
    lemma_lookup(e, 2, "inResponseTo"@);
    lemma_lookup(e, 3, "messageId"@);
    lemma_lookup(e, 4, "payload"@);
    lemma_lookup(e, 5, "responseExpected"@);
    lemma_lookup(e, 6, "timeStamp"@);
    lemma_lookup(e, 7, "to"@);
}

/// The names of the requests that are answered in a way of their own are four.
proof fn lemma_names()
    ensures
        "timeSync"@.len() == 8,
        "ubnt_avclient_timeSync"@.len() == 22,
        "hello"@.len() == 5,
        "ubnt_avclient_hello"@.len() == 19,
{
    reveal_strlit("timeSync");
    reveal_strlit("ubnt_avclient_timeSync");
    reveal_strlit("hello");
    reveal_strlit("ubnt_avclient_hello");
}

/// A message is what its members say: each is read under its own name, and one that is missing is
/// empty, 0 or false.
pub proof fn law_message_members(v: JsonView, t: Seq<char>, n: u64, b: bool)
    ensures
        v.member("from"@) == Some(JsonView::Str(t)) ==> message_of(v).from == t,
        v.member("to"@) == Some(JsonView::Str(t)) ==> message_of(v).to == t,
        v.member("functionName"@) == Some(JsonView::Str(t)) ==> message_of(v).function_name == t,
        v.member("messageId"@) == Some(JsonView::UInt(n)) ==> message_of(v).message_id == n,
        v.member("inResponseTo"@) == Some(JsonView::UInt(n)) ==> message_of(v).in_response_to == n,
        v.member("responseExpected"@) == Some(JsonView::Bool(b)) ==> message_of(v).response_expected == b,
        v.member("payload"@) matches Some(p) ==> message_of(v).payload == p,
        v.member("functionName"@) is None ==> message_of(v).function_name.len() == 0,
        v.member("messageId"@) is None ==> message_of(v).message_id == 0,
        v.member("inResponseTo"@) is None ==> message_of(v).in_response_to == 0,
        v.member("responseExpected"@) is None ==> !message_of(v).response_expected,
{
}

proof fn lemma_answered(s: SessionView, f: WsFrameView, v: JsonView, name: Seq<char>, id: u64, now: u64)
    requires
        is_request(f, v, name, id),
        is_sound(s),
    ensures
        ({
            let m = message_of(v);
            let (next, frames, done) = s.on_frame(f, now);
            &&& !done
            &&& m.function_name == name
            &&& m.message_id == id
            &&& frames.len() >= 1
            &&& next.ready == s.after_answer(m).ready
            &&& next.hello_received == s.after_answer(m).hello_received
            &&& says(frames[0], name, id, s.next_message_id, false, now, s.answer_payload(m, now))
            &&& !next.hello_received || s.adoption_state != AdoptionState::WaitingForHello ==> frames.len() == 1
                && next.adoption_state == s.adoption_state
        }),
{
    let m = message_of(v);
    lemma_answer_payload_is_readable(s, m, now);
    lemma_envelope_says(name, id, s.next_message_id, s.answer_payload(m, now), false, now);
}

/// A request named `timeSync` and one named `ubnt_avclient_timeSync` are both answered with the
/// members `t1` and `t2`, each the time now, and leave the session ready.
pub proof fn law_time_sync_tells_the_time(
    s: SessionView,
    f: WsFrameView,
    v: JsonView,
    name: Seq<char>,
    id: u64,
    now: u64,
)
    requires
        name == "timeSync"@ || name == "ubnt_avclient_timeSync"@,
        is_request(f, v, name, id),
        is_sound(s),
    ensures
        ({
            let (next, frames, done) = s.on_frame(f, now);
            &&& !done
            &&& next.ready
            &&& frames.len() >= 1
            &&& exists|payload: JsonView| #[trigger]
                says(frames[0], name, id, s.next_message_id, false, now, payload) && payload.member("t1"@) == Some(
                    JsonView::UInt(now),
                ) && payload.member("t2"@) == Some(JsonView::UInt(now))
        }),
{
    lemma_answered(s, f, v, name, id, now);
    let payload = s.answer_payload(message_of(v), now);
    reveal_strlit("t1");
    reveal_strlit("t2");
    assert("t1"@[1] == '1' && "t2"@[1] == '2');
    lemma_lookup(payload->Object_0, 0, "t1"@);
    lemma_lookup(payload->Object_0, 1, "t2"@);
    assert(says(s.on_frame(f, now).1[0], name, id, s.next_message_id, false, now, payload));
}

/// A request named `hello` and one named `ubnt_avclient_hello` are both answered with the
/// controller's name, number and version, and with the protocol version that the camera gave, or 67
/// where it gave none. A session that has told the time stays as ready as it was.
pub proof fn law_hello_tells_who_answers(
    s: SessionView,
    f: WsFrameView,
    v: JsonView,
    name: Seq<char>,
    id: u64,
    now: u64,
)
    requires
        name == "hello"@ || name == "ubnt_avclient_hello"@,
        is_request(f, v, name, id),
        is_sound(s),
    ensures
        ({
            let (next, frames, done) = s.on_frame(f, now);
            let told = match v.member("payload"@) {
                Some(p) => p.member("protocolVersion"@),
                None => None,
            };
            &&& !done
            &&& next.hello_received
            &&& next.ready == s.ready
            &&& frames.len() >= 1
            &&& exists|payload: JsonView| #[trigger]
                says(frames[0], name, id, s.next_message_id, false, now, payload) && {
                    &&& payload.member("controllerName"@) == Some(JsonView::Str(s.controller_name))
                    &&& payload.member("controllerUuid"@) == Some(JsonView::Str(s.controller_uuid))
                    &&& payload.member("controllerVersion"@) == Some(JsonView::Str(s.controller_version))
                    &&& payload.member("overrideUuid"@) == Some(JsonView::Bool(true))
                    &&& told is None ==> payload.member("protocolVersion"@) == Some(JsonView::UInt(67))
                    &&& told matches Some(JsonView::UInt(n)) ==> payload.member("protocolVersion"@) == Some(
                        JsonView::UInt(n),
                    )
                }
        }),
{
    lemma_answered(s, f, v, name, id, now);
    lemma_names();
    let m = message_of(v);
    assert(name.len() == 5 || name.len() == 19);
    assert(!is_time_sync(name));
    let payload = s.answer_payload(m, now);
    let e = payload->Object_0;
    reveal_strlit("protocolVersion");
    reveal_strlit("controllerName");
    reveal_strlit("controllerUuid");
    reveal_strlit("controllerVersion");
    reveal_strlit("overrideUuid");
    assert("protocolVersion"@.len() == 15 && "controllerVersion"@.len() == 17 && "overrideUuid"@.len() == 12);
    assert("controllerName"@.len() == 14 && "controllerUuid"@.len() == 14);
    assert("controllerName"@[10] == 'N' && "controllerUuid"@[10] == 'U');
    lemma_lookup(e, 0, "protocolVersion"@);
    lemma_lookup(e, 1, "controllerName"@);
    lemma_lookup(e, 2, "controllerUuid"@);
    lemma_lookup(e, 3, "controllerVersion"@);
    lemma_lookup(e, 4, "overrideUuid"@);
    assert(says(s.on_frame(f, now).1[0], name, id, s.next_message_id, false, now, payload));
}

/// A request with any other name is answered with status code 0, `ok` and the device's id, and
/// neither makes a session ready nor counts as a greeting.
pub proof fn law_other_requests_are_acknowledged(
    s: SessionView,
    f: WsFrameView,
    v: JsonView,
    name: Seq<char>,
    id: u64,
    now: u64,
)
    requires
        name != "timeSync"@,
        name != "ubnt_avclient_timeSync"@,
        name != "hello"@,
        name != "ubnt_avclient_hello"@,
        is_request(f, v, name, id),
        is_sound(s),
    ensures
        ({
            let (next, frames, done) = s.on_frame(f, now);
            &&& !done
            &&& next.ready == s.ready
            &&& next.hello_received == s.hello_received
            &&& frames.len() >= 1
            &&& exists|payload: JsonView| #[trigger]
                says(frames[0], name, id, s.next_message_id, false, now, payload) && {
                    &&& payload.member("statusCode"@) == Some(JsonView::UInt(0))
                    &&& payload.member("status"@) == Some(JsonView::Str("ok"@))
                    &&& payload.member("deviceID"@) == Some(JsonView::Str(s.device_id))
                }
        }),
{
    lemma_answered(s, f, v, name, id, now);
    let payload = s.answer_payload(message_of(v), now);
    let e = payload->Object_0;
    reveal_strlit("statusCode");
    reveal_strlit("status");
    reveal_strlit("deviceID");
    assert("statusCode"@.len() == 10 && "status"@.len() == 6 && "deviceID"@.len() == 8);
    lemma_lookup(e, 0, "statusCode"@);
    lemma_lookup(e, 1, "status"@);
    lemma_lookup(e, 2, "deviceID"@);
    assert(says(s.on_frame(f, now).1[0], name, id, s.next_message_id, false, now, payload));
}

/// The greeting begins adoption: where a destination is set and the session waits for `hello`, the
/// answer is followed by `ubnt_avclient_paramAgreement`, which asks for status codes, no heartbeats
/// and a time-out of a minute, and expects an answer; the session then waits for that answer. Where
/// no destination is set only the answer is sent.
pub proof fn law_greeting_begins_adoption(
    s: SessionView,
    f: WsFrameView,
    v: JsonView,
    name: Seq<char>,
    id: u64,
    now: u64,
)
    requires
        name == "hello"@ || name == "ubnt_avclient_hello"@,
        is_request(f, v, name, id),
        is_sound(s),
    ensures
        ({
            let (next, frames, done) = s.on_frame(f, now);
            let asked = following(s.next_message_id);
            &&& s.adoption_state == AdoptionState::WaitingForHello ==> {
                &&& frames.len() == 2
                &&& next.adoption_state == AdoptionState::WaitingForParamAgreementAck
                &&& next.pending_adoption_msg_id == asked
                &&& exists|payload: JsonView| #[trigger]
                    says(frames[1], "ubnt_avclient_paramAgreement"@, 0, asked, true, now, payload) && {
                        &&& payload.member("enableStatusCodes"@) == Some(JsonView::Bool(true))
                        &&& payload.member("useHeartbeats"@) == Some(JsonView::Bool(false))
                        &&& payload.member("heartbeatsTimeoutMs"@) == Some(JsonView::UInt(60_000))
                    }
            }
            &&& s.adoption_state != AdoptionState::WaitingForHello ==> frames.len() == 1 && next.adoption_state
                == s.adoption_state
        }),
{
    lemma_answered(s, f, v, name, id, now);
    lemma_names();
    assert(name.len() == 5 || name.len() == 19);
    assert(!is_time_sync(name));
    let payload = param_agreement();
    let e = payload->Object_0;
    reveal_strlit("enableStatusCodes");
    reveal_strlit("useHeartbeats");
    reveal_strlit("heartbeatsTimeoutMs");
    assert("enableStatusCodes"@.len() == 17 && "useHeartbeats"@.len() == 13 && "heartbeatsTimeoutMs"@.len() == 19);
    lemma_lookup(e, 0, "enableStatusCodes"@);
    lemma_lookup(e, 1, "useHeartbeats"@);
    lemma_lookup(e, 2, "heartbeatsTimeoutMs"@);
    assert forall|i: int| 0 <= i < e.len() implies is_readable((#[trigger] e[i]).1) by {
        assert(i == 0 || i == 1 || i == 2);
    }
    let asked = following(s.next_message_id);
    lemma_envelope_says("ubnt_avclient_paramAgreement"@, 0, asked, payload, true, now);
    if s.adoption_state == AdoptionState::WaitingForHello {
        assert(says(s.on_frame(f, now).1[1], "ubnt_avclient_paramAgreement"@, 0, asked, true, now, payload));
    }
}

/// What an object of one entry holds.
proof fn lemma_only_member(key: Seq<char>, value: JsonView)
    ensures
        JsonView::Object(seq![(key, value)]).member(key) == Some(value),
{
    lemma_lookup(seq![(key, value)], 0, key);
}

/// The members of the settings that say where the camera's stream goes.
proof fn lemma_settings(destination: Seq<char>, stream_name: Seq<char>)
    ensures
        ({
            let settings = change_video_settings(destination, stream_name);
            let channel = settings.member("video"@)->0.member("video1"@)->0;
            let serializer = channel.member("avSerializer"@)->0;
            let parameters = serializer.member("parameters"@)->0;
            &&& is_readable(settings)
            &&& settings.member("video"@) is Some
            &&& settings.member("video"@)->0.member("video1"@) is Some
            &&& channel.member("type"@) == Some(JsonView::Str("h264"@))
            &&& channel.member("avSerializer"@) is Some
            &&& serializer.member("type"@) == Some(JsonView::Str("extendedFlv"@))
            &&& serializer.member("destinations"@) == Some(JsonView::Array(seq![JsonView::Str(destination)]))
            &&& serializer.member("parameters"@) is Some
            &&& parameters.member("streamName"@) == Some(JsonView::Str(stream_name))
            &&& parameters.member("withOpus"@) == Some(JsonView::Bool(true))
            &&& parameters.member("opusSampleRate"@) == Some(JsonView::UInt(24_000))
        }),
{
    reveal_strlit("video");
    reveal_strlit("video1");
    reveal_strlit("avSerializer");
    reveal_strlit("type");
    reveal_strlit("parameters");
    reveal_strlit("destinations");
    reveal_strlit("streamName");
    reveal_strlit("withOpus");
    reveal_strlit("opusSampleRate");
    assert("avSerializer"@.len() == 12 && "type"@.len() == 4 && "parameters"@.len() == 10 && "destinations"@.len() == 12);
    assert("streamName"@.len() == 10 && "withOpus"@.len() == 8 && "opusSampleRate"@.len() == 14);
    let settings = change_video_settings(destination, stream_name);
    let video = settings->Object_0[0].1;
    lemma_only_member("video"@, video);
    assert(settings->Object_0 =~= seq![("video"@, video)]);
    let channel = video->Object_0[0].1;
    lemma_only_member("video1"@, channel);
    assert(video->Object_0 =~= seq![("video1"@, channel)]);
    let serializer = channel->Object_0[0].1;
    lemma_lookup(channel->Object_0, 0, "avSerializer"@);
    lemma_lookup(channel->Object_0, 1, "type"@);
    let parameters = serializer->Object_0[1].1;
    lemma_lookup(serializer->Object_0, 0, "type"@);
    lemma_lookup(serializer->Object_0, 1, "parameters"@);
    lemma_lookup(serializer->Object_0, 2, "destinations"@);
    lemma_lookup(parameters->Object_0, 0, "streamName"@);
    lemma_lookup(parameters->Object_0, 1, "withOpus"@);
    lemma_lookup(parameters->Object_0, 2, "opusSampleRate"@);
    assert forall|i: int| 0 <= i < 3 implies is_readable((#[trigger] parameters->Object_0[i]).1) by {
        assert(i == 0 || i == 1 || i == 2);
    }
    assert(is_readable(parameters));
    let list = serializer->Object_0[2].1;
    assert(is_readable(list)) by {
        assert forall|i: int| 0 <= i < list->Array_0.len() implies is_readable(#[trigger] list->Array_0[i]) by {
            assert(i == 0);
        }
    }
    assert forall|i: int| 0 <= i < 3 implies is_readable((#[trigger] serializer->Object_0[i]).1) by {
        assert(i == 0 || i == 1 || i == 2);
    }
    assert(is_readable(serializer));
    assert forall|i: int| 0 <= i < 2 implies is_readable((#[trigger] channel->Object_0[i]).1) by {
        assert(i == 0 || i == 1);
    }
    assert(is_readable(channel));
    assert(is_readable(video));
}

/// The awaited acknowledgement completes adoption: the camera is sent `ChangeVideoSettings`, once,
/// which tells its first channel to send H.264 in extended FLV to the session's destination, under the
/// session's stream name or, where none is set, `DEFAULT_0`.
pub proof fn law_acknowledgement_sets_the_stream(
    s: SessionView,
    f: WsFrameView,
    v: JsonView,
    destination: Seq<char>,
    now: u64,
)
    requires
        f.opcode == Opcode::Text || f.opcode == Opcode::Binary,
        parsed(f.payload) matches Ok(w) && w == v,
        s.adoption_state == AdoptionState::WaitingForParamAgreementAck,
        v.member("inResponseTo"@) == Some(JsonView::UInt(s.pending_adoption_msg_id)),
        s.stream_destination == Some(destination),
    ensures
        ({
            let (next, frames, done) = s.on_frame(f, now);
            &&& !done
            &&& next.adoption_state == AdoptionState::Adopted
            &&& frames.len() == 1
            &&& exists|payload: JsonView| #[trigger]
                says(frames[0], "ChangeVideoSettings"@, 0, s.next_message_id, false, now, payload) && {
                    let channel = payload.member("video"@)->0.member("video1"@)->0;
                    let serializer = channel.member("avSerializer"@)->0;
                    let parameters = serializer.member("parameters"@)->0;
                    &&& channel.member("type"@) == Some(JsonView::Str("h264"@))
                    &&& serializer.member("type"@) == Some(JsonView::Str("extendedFlv"@))
                    &&& serializer.member("destinations"@) == Some(JsonView::Array(seq![JsonView::Str(destination)]))
                    &&& parameters.member("streamName"@) == Some(
                        JsonView::Str(
                            match s.stream_name {
                                Some(n) => n,
                                None => "DEFAULT_0"@,
                            },
                        ),
                    )
                    &&& parameters.member("withOpus"@) == Some(JsonView::Bool(true))
                    &&& parameters.member("opusSampleRate"@) == Some(JsonView::UInt(24_000))
                }
        }),
{
    let name = match s.stream_name {
        Some(n) => n,
        None => "DEFAULT_0"@,
    };
    let payload = change_video_settings(destination, name);
    lemma_settings(destination, name);
    lemma_envelope_says("ChangeVideoSettings"@, 0, s.next_message_id, payload, false, now);
    assert(s.video_settings() == payload);
    assert(says(s.on_frame(f, now).1[0], "ChangeVideoSettings"@, 0, s.next_message_id, false, now, payload));
}

/// A ping is answered with a pong of the same payload, a close with a close, which ends the session;
/// a pong, and what is no message, is answered with nothing. None of them changes the session.
pub proof fn law_control_frames(s: SessionView, f: WsFrameView, now: u64)
    ensures
        ({
            let (next, frames, done) = s.on_frame(f, now);
            &&& done <==> f.opcode == Opcode::Close
            &&& f.opcode == Opcode::Ping || f.opcode == Opcode::Close ==> next == s && frames.len() == 1
                && frames[0].payload == f.payload && frames[0].fin
            &&& f.opcode == Opcode::Ping ==> frames[0].opcode == Opcode::Pong
            &&& f.opcode == Opcode::Close ==> frames[0].opcode == Opcode::Close
            &&& f.opcode == Opcode::Pong || f.opcode == Opcode::Continuation ==> next == s && frames.len() == 0
            &&& parsed(f.payload) is Err && (f.opcode == Opcode::Text || f.opcode == Opcode::Binary) ==> next == s
                && frames.len() == 0
        }),
{
}

} // verus!
