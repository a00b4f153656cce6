//! What holds of every session with a camera.

use crate::json::{JsonView, lookup, parsed};
use crate::json_laws::{is_readable, law_parsing_undoes_emitting};
use crate::protect_controller::{
    AdoptionState, MessageView, SessionView, envelope, following, is_ack, is_hello, is_time_sync, message_frame,
    message_of, param_agreement,
};
use crate::ws::{Opcode, WsFrameView};
use vstd::prelude::*;

verus! {

/// Adoption goes one way, a step at a time: it waits for `hello`, then for the acknowledgement of
/// `paramAgreement`, and then it is done. A session without a destination never begins it.
pub proof fn law_adoption_moves_forward(s: SessionView, f: WsFrameView, now: u64)
    ensures
        ({
            let n = s.on_frame(f, now).0;
            &&& n.adoption_state == s.adoption_state || (s.adoption_state
                == AdoptionState::WaitingForHello && n.adoption_state
                == AdoptionState::WaitingForParamAgreementAck) || (s.adoption_state
                == AdoptionState::WaitingForParamAgreementAck && n.adoption_state == AdoptionState::Adopted)
            &&& s.ready ==> n.ready
            &&& s.hello_received ==> n.hello_received
        }),
{
}

/// Once the camera has been told where its stream goes, or there was nothing to tell, that stays so.
pub proof fn law_settled_settings_stay_settled(s: SessionView, f: WsFrameView, now: u64)
    requires
        s.video_settings_settled(),
    ensures
        s.on_frame(f, now).0.video_settings_settled(),
{
}

/// Without a destination, the answered `hello` settles the video settings, and nothing but the
/// answer is sent.
pub proof fn law_nothing_to_tell_is_settled_by_hello(s: SessionView, hello: MessageView, now: u64)
    requires
        s.adoption_state is NotConfigured,
        is_hello(hello.function_name),
        !is_ack(hello),
    ensures
        s.on_message(hello, now).0.video_settings_settled(),
        s.on_message(hello, now).1 == seq![message_frame(s.answer(hello, now))],
{
    reveal_strlit("hello");
    reveal_strlit("ubnt_avclient_hello");
    reveal_strlit("timeSync");
    reveal_strlit("ubnt_avclient_timeSync");
    let name = hello.function_name;
    assert(name.len() == 5 || name.len() == 19);
    assert(!is_time_sync(name));
}

/// An acknowledgement is never answered. The one that adoption waits for is followed by a command of
/// the controller's own; every other one by nothing.
pub proof fn law_acknowledgements_are_not_answered(s: SessionView, m: MessageView, now: u64)
    requires
        is_ack(m),
    ensures
        s.is_awaited_ack(m) ==> s.on_message(m, now).1 == seq![
            message_frame(s.command("ChangeVideoSettings"@, s.video_settings(), false, now)),
        ],
        !s.is_awaited_ack(m) ==> s.on_message(m, now) == (s, Seq::<WsFrameView>::empty()),
{
}

/// Every message that a session sends has a number of its own, one after the other.
pub proof fn law_messages_are_numbered(s: SessionView, m: MessageView, now: u64)
    ensures
        ({
            let (n, frames) = s.on_message(m, now);
            &&& frames.len() <= 2
            &&& n.next_message_id == (if frames.len() == 0 {
                s.next_message_id
            } else if frames.len() == 1 {
                following(s.next_message_id)
            } else {
                following(following(s.next_message_id))
            })
        }),
{
}

/// What the members of a message of the controller are called.
pub(crate) proof fn lemma_member_names()
    ensures
        "from"@.len() == 4,
        "to"@.len() == 2,
        "functionName"@.len() == 12 && "functionName"@[0] == 'f',
        "inResponseTo"@.len() == 12 && "inResponseTo"@[0] == 'i',
        "messageId"@.len() == 9 && "messageId"@[0] == 'm',
        "payload"@.len() == 7,
        "responseExpected"@.len() == 16,
        "timeStamp"@.len() == 9 && "timeStamp"@[0] == 't',
{
    reveal_strlit("from");
    reveal_strlit("to");
    reveal_strlit("functionName");
    reveal_strlit("inResponseTo");
    reveal_strlit("messageId");
    reveal_strlit("payload");
    reveal_strlit("responseExpected");
    reveal_strlit("timeStamp");
}

/// A message of the controller, read as a message, is what it was built from.
proof fn lemma_envelope_is_message(
    function_name: Seq<char>,
    in_response_to: u64,
    message_id: u64,
    payload: JsonView,
    response_expected: bool,
    now: u64,
)
    ensures
        message_of(envelope(function_name, in_response_to, message_id, payload, response_expected, now)) == (
        MessageView {
            from: "UniFiVideo"@,
            to: "ubnt_avclient"@,
            function_name,
            message_id,
            in_response_to,
            response_expected,
            payload,
        }),
{
    let v = envelope(function_name, in_response_to, message_id, payload, response_expected, now);
    let e = v->Object_0;
    lemma_member_names();
    reveal_with_fuel(lookup, 10);
    assert(e.skip(1)[0] == e[1]);
    assert(e.skip(1).skip(1)[0] == e[2]);
    assert(e.skip(1).skip(1).skip(1)[0] == e[3]);
    assert(e.skip(1).skip(1).skip(1).skip(1)[0] == e[4]);
    assert(e.skip(1).skip(1).skip(1).skip(1).skip(1)[0] == e[5]);
    assert(e.skip(1).skip(1).skip(1).skip(1).skip(1).skip(1)[0] == e[6]);
    assert(e.skip(1).skip(1).skip(1).skip(1).skip(1).skip(1).skip(1)[0] == e[7]);
}

pub(crate) proof fn lemma_envelope_is_readable(
    function_name: Seq<char>,
    in_response_to: u64,
    message_id: u64,
    payload: JsonView,
    response_expected: bool,
    now: u64,
)
    requires
        is_readable(payload),
    ensures
        is_readable(envelope(function_name, in_response_to, message_id, payload, response_expected, now)),
{
    let e = envelope(function_name, in_response_to, message_id, payload, response_expected, now)->Object_0;
    assert forall|i: int| 0 <= i < e.len() implies is_readable((#[trigger] e[i]).1) by {
        if i == 4 {
            assert(e[i].1 == payload);
        }
    }
}

pub(crate) proof fn lemma_answer_payload_is_readable(s: SessionView, m: MessageView, now: u64)
    ensures
        is_readable(s.answer_payload(m, now)),
{
    let e = s.answer_payload(m, now)->Object_0;
    assert forall|i: int| 0 <= i < e.len() implies is_readable((#[trigger] e[i]).1) by {
        if is_time_sync(m.function_name) {
            assert(i == 0 || i == 1);
        } else if is_hello(m.function_name) {
            assert(i == 0 || i == 1 || i == 2 || i == 3 || i == 4);
        } else {
            assert(i == 0 || i == 1 || i == 2);
        }
    }
}

/// Every request is answered, and the camera can tell what the answer belongs to: read back from the
/// wire, it bears the request's name and, as `inResponseTo`, the request's number.
pub proof fn law_answers_name_their_request(s: SessionView, m: MessageView, now: u64)
    requires
        !is_ack(m),
        !s.is_awaited_ack(m),
    ensures
        ({
            let frames = s.on_message(m, now).1;
            &&& frames.len() >= 1
            &&& frames[0].opcode == Opcode::Binary
            &&& parsed(frames[0].payload) matches Ok(v) && message_of(v) == (MessageView {
                from: "UniFiVideo"@,
                to: "ubnt_avclient"@,
                function_name: m.function_name,
                message_id: s.next_message_id,
                in_response_to: m.message_id,
                response_expected: false,
                payload: s.answer_payload(m, now),
            })
        }),
{
    let payload = s.answer_payload(m, now);
    lemma_answer_payload_is_readable(s, m, now);
    lemma_envelope_is_readable(m.function_name, m.message_id, s.next_message_id, payload, false, now);
    law_parsing_undoes_emitting(s.answer(m, now));
    lemma_envelope_is_message(m.function_name, m.message_id, s.next_message_id, payload, false, now);
}

/// The whole way of adoption: a session with a destination that has not heard `hello` answers it and
/// asks for agreement; the acknowledgement of that, and no other message, brings
/// `ChangeVideoSettings` with the destination in it.
pub proof fn law_adoption_is_sequential(s: SessionView, hello: MessageView, ack: MessageView, t1: u64, t2: u64)
    requires
        s.adoption_state == AdoptionState::WaitingForHello,
        is_hello(hello.function_name),
        !is_time_sync(hello.function_name),
        !is_ack(hello),
        ack.in_response_to == following(s.next_message_id),
    ensures
        ({
            let (greeted, first) = s.on_message(hello, t1);
            let (adopted, second) = greeted.on_message(ack, t2);
            let asking = s.after_answer(hello);
            &&& first == seq![
                message_frame(s.answer(hello, t1)),
                message_frame(
                    asking.command("ubnt_avclient_paramAgreement"@, param_agreement(), true, t1),
                ),
            ]
            &&& greeted.adoption_state == AdoptionState::WaitingForParamAgreementAck
            &&& second == seq![
                message_frame(
                    greeted.command("ChangeVideoSettings"@, s.video_settings(), false, t2),
                ),
            ]
            &&& adopted.adoption_state == AdoptionState::Adopted
        }),
{
}

} // verus!
