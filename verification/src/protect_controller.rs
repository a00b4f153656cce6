//! The control protocol that cameras speak over a WebSocket: JSON messages in binary frames. A
//! session answers the camera's requests and, where a stream destination is set, leads the camera
//! through adoption one message at a time. It does no I/O: it takes the frames that have come and
//! gives the frames to send.

use crate::bytes::append_bytes;
use crate::calendar::{clock_text, date_text, push_clock, push_date};
use crate::defaults::{DEFAULT_CONTROLLER_NAME, DEFAULT_CONTROLLER_UUID, DEFAULT_CONTROLLER_VERSION};
use crate::json::{Json, JsonView, array, bool_v, emit, emitted, obj, parse, parsed, str_v, uint};
use crate::text::str_eq;
use crate::ws::{Opcode, WsError, WsFrame, WsFrameView, ws_error_text};
use vstd::prelude::*;
use vstd::utf8::encode_utf8;

verus! {

/// Protocol version in the answer to a `hello` that names none.
pub const HELLO_PROTOCOL_VERSION: u64 = 67;

/// Heartbeat timeout that the controller announces, in milliseconds.
pub const HEARTBEATS_TIMEOUT_MS: u64 = 60_000;

/// The first `messageId` of the controller.
pub const FIRST_CONTROLLER_MESSAGE_ID: u64 = 1;

/// Sample rate that the controller announces for Opus, in hertz.
pub const OPUS_SAMPLE_RATE_HZ_DEFAULT: u64 = 24_000;

/// Which way a frame went.
#[derive(Debug, Clone, Copy, PartialEq, Eq, Structural)]
pub enum FrameDirection {
    /// From the camera.
    In,
    /// To the camera.
    Out,
}

/// A frame that went over the wire, for whoever watches.
#[derive(Debug, PartialEq, Eq)]
pub struct FrameTrace {
    pub direction: FrameDirection,
    pub opcode: Opcode,
    pub payload: Vec<u8>,
}

/// What the record of a frame stands for.
#[verifier::ext_equal]
pub struct TraceView {
    pub direction: FrameDirection,
    pub opcode: Opcode,
    pub payload: Seq<u8>,
}

impl View for FrameTrace {
    type V = TraceView;

    open spec fn view(&self) -> TraceView {
        TraceView { direction: self.direction, opcode: self.opcode, payload: self.payload@ }
    }
}

/// The record of a frame that went this way.
pub open spec fn trace_of(direction: FrameDirection, f: WsFrameView) -> TraceView {
    TraceView { direction, opcode: f.opcode, payload: f.payload }
}

impl FrameTrace {
    /// Records a frame that went this way.
    pub fn new(direction: FrameDirection, frame: &WsFrame) -> (r: FrameTrace)
        ensures
            r@ == trace_of(direction, frame@),
    {
        let mut payload: Vec<u8> = Vec::new();
        append_bytes(&mut payload, frame.payload.as_slice());
        assert(payload@ =~= frame@.payload);
        FrameTrace { direction, opcode: frame.opcode, payload }
    }
}

/// What ends a session, or keeps a payload from being a message.
#[derive(Debug, PartialEq, Eq)]
pub enum AvClientError {
    /// The connection failed at the level of frames.
    Ws(WsError),
    /// The payload is not JSON.
    MalformedJson,
}

/// An error in words.
pub open spec fn session_error_text(e: AvClientError) -> Seq<char> {
    match e {
        AvClientError::Ws(e) => "WebSocket error in AVClient session: "@ + ws_error_text(e),
        AvClientError::MalformedJson => "malformed AVClient JSON frame"@,
    }
}

impl AvClientError {
    /// The error in words.
    pub fn message(&self) -> (r: String)
        ensures
            r@ == session_error_text(*self),
    {
        match self {
            AvClientError::Ws(e) => {
                let mut out = "WebSocket error in AVClient session: ".to_owned();
                out.append(e.message().as_str());
                out
            },
            AvClientError::MalformedJson => "malformed AVClient JSON frame".to_owned(),
        }
    }
}

impl From<WsError> for AvClientError {
    fn from(e: WsError) -> (r: AvClientError) {
        AvClientError::Ws(e)
    }
}

impl vstd::std_specs::convert::FromSpecImpl<WsError> for AvClientError {
    open spec fn obeys_from_spec() -> bool {
        true
    }

    open spec fn from_spec(e: WsError) -> AvClientError {
        AvClientError::Ws(e)
    }
}

/// A time in milliseconds since the Unix epoch, as `2026-06-19T15:52:59.817+00:00`.
pub open spec fn iso8601(ms: int) -> Seq<char> {
    date_text(ms / 86400000) + "T"@ + clock_text(ms % 86400000) + "+00:00"@
}

/// Formats a time in milliseconds since the Unix epoch.
pub fn format_iso8601_utc(ms: u64) -> (r: String)
    ensures
        r@ == iso8601(ms as int),
{
    let mut out = String::new();
    push_date(&mut out, (ms / 86_400_000) as i64);
    assert(out@ =~= date_text(ms as int / 86400000));
    out.append("T");
    push_clock(&mut out, ms % 86_400_000);
    out.append("+00:00");
    out
}

/// A message of the protocol. What a message leaves out is empty, zero or false.
#[derive(Debug, PartialEq, Eq)]
pub struct ControllerMessage {
    from: String,
    to: String,
    function_name: String,
    message_id: u64,
    in_response_to: u64,
    response_expected: bool,
    payload: Json,
}

/// What a message stands for.
#[verifier::ext_equal]
pub struct MessageView {
    pub from: Seq<char>,
    pub to: Seq<char>,
    pub function_name: Seq<char>,
    pub message_id: u64,
    pub in_response_to: u64,
    pub response_expected: bool,
    pub payload: JsonView,
}

impl View for ControllerMessage {
    type V = MessageView;

    closed spec fn view(&self) -> MessageView {
        MessageView {
            from: self.from@,
            to: self.to@,
            function_name: self.function_name@,
            message_id: self.message_id,
            in_response_to: self.in_response_to,
            response_expected: self.response_expected,
            payload: self.payload@,
        }
    }
}

/// A text member, or nothing.
pub open spec fn text_member(v: JsonView, key: Seq<char>) -> Seq<char> {
    match v.member(key) {
        Some(m) => match m.to_text() {
            Some(t) => t,
            None => Seq::empty(),
        },
        None => Seq::empty(),
    }
}

/// A number under a key.
pub open spec fn number_member(v: JsonView, key: Seq<char>) -> Option<u64> {
    match v.member(key) {
        Some(m) => m.to_u64(),
        None => None,
    }
}

/// A flag, or false.
pub open spec fn flag_member(v: JsonView, key: Seq<char>) -> bool {
    match v.member(key) {
        Some(m) => m.to_bool() == Some(true),
        None => false,
    }
}

/// `Some` number, or zero.
pub open spec fn or_zero(n: Option<u64>) -> u64 {
    match n {
        Some(x) => x,
        None => 0,
    }
}

/// The message that a JSON value is.
pub open spec fn message_of(v: JsonView) -> MessageView {
    MessageView {
        from: text_member(v, "from"@),
        to: text_member(v, "to"@),
        function_name: text_member(v, "functionName"@),
        message_id: or_zero(number_member(v, "messageId"@)),
        in_response_to: or_zero(number_member(v, "inResponseTo"@)),
        response_expected: flag_member(v, "responseExpected"@),
        payload: match v.member("payload"@) {
            Some(p) => p,
            None => JsonView::Null,
        },
    }
}

/// A text member, or nothing.
fn string_field(v: &Json, key: &str) -> (r: String)
    ensures
        r@ == text_member(v@, key@),
{
    match v.get(key) {
        Some(m) => match m.as_str() {
            Some(t) => t.to_owned(),
            None => String::new(),
        },
        None => String::new(),
    }
}

/// A number member.
fn number_field(v: &Json, key: &str) -> (r: Option<u64>)
    ensures
        r == number_member(v@, key@),
{
    match v.get(key) {
        Some(m) => m.as_u64(),
        None => None,
    }
}

impl ControllerMessage {
    /// The message in a payload. Any JSON value is one, if mostly of defaults.
    pub fn parse(bytes: &[u8]) -> (r: Result<ControllerMessage, AvClientError>)
        ensures
            match parsed(bytes@) {
                Ok(v) => r matches Ok(m) && m@ == message_of(v),
                Err(_) => r matches Err(AvClientError::MalformedJson),
            },
    {
        match parse(bytes) {
            Ok(v) => Ok(Self::from_json(&v)),
            Err(_) => Err(AvClientError::MalformedJson),
        }
    }

    /// The message that a JSON value is.
    pub fn from_json(v: &Json) -> (r: ControllerMessage)
        ensures
            r@ == message_of(v@),
    {
        let response_expected = match v.get("responseExpected") {
            Some(m) => match m.as_bool() {
                Some(b) => b,
                None => false,
            },
            None => false,
        };
        let message_id: u64 = match number_field(v, "messageId") {
            Some(n) => n,
            None => 0,
        };
        let in_response_to: u64 = match number_field(v, "inResponseTo") {
            Some(n) => n,
            None => 0,
        };
        let payload = match v.get("payload") {
            Some(p) => p.duplicate(),
            None => Json::Null,
        };
        ControllerMessage {
            from: string_field(v, "from"),
            to: string_field(v, "to"),
            function_name: string_field(v, "functionName"),
            message_id,
            in_response_to,
            response_expected,
            payload,
        }
    }

    pub fn function_name(&self) -> (r: &str)
        ensures
            r@ == self@.function_name,
    {
        self.function_name.as_str()
    }

    /// Who sent it.
    pub fn from(&self) -> (r: &str)
        ensures
            r@ == self@.from,
    {
        self.from.as_str()
    }

    /// Whom it is for.
    pub fn to(&self) -> (r: &str)
        ensures
            r@ == self@.to,
    {
        self.to.as_str()
    }

    pub fn message_id(&self) -> (r: u64)
        ensures
            r == self@.message_id,
    {
        self.message_id
    }

    pub fn in_response_to(&self) -> (r: u64)
        ensures
            r == self@.in_response_to,
    {
        self.in_response_to
    }

    pub fn response_expected(&self) -> (r: bool)
        ensures
            r == self@.response_expected,
    {
        self.response_expected
    }

    /// A number in the payload.
    pub fn payload_u64(&self, key: &str) -> (r: Option<u64>)
        ensures
            r == number_member(self@.payload, key@),
    {
        number_field(&self.payload, key)
    }

    /// A text in the payload.
    pub fn payload_str(&self, key: &str) -> (r: Option<&str>)
        ensures
            match self@.payload.member(key@) {
                Some(m) => match m.to_text() {
                    Some(text) => r matches Some(t) && t@ == text,
                    None => r is None,
                },
                None => r is None,
            },
    {
        match self.payload.get(key) {
            Some(m) => m.as_str(),
            None => None,
        }
    }
}

/// How far the camera has been led through adoption.
#[derive(Debug, Clone, Copy, PartialEq, Eq, Structural)]
pub enum AdoptionState {
    /// No stream destination is set; the session only answers.
    NotConfigured,
    /// The camera has not said `hello` yet.
    WaitingForHello,
    /// `paramAgreement` has been sent and not been acknowledged.
    WaitingForParamAgreementAck,
    /// `ChangeVideoSettings` has been sent.
    Adopted,
}

/// A session with one camera.
#[derive(Debug, PartialEq, Eq)]
pub struct AvClientSession {
    device_id: String,
    next_message_id: u64,
    ready: bool,
    stream_destination: Option<String>,
    stream_name: Option<String>,
    adoption_state: AdoptionState,
    pending_adoption_msg_id: u64,
    hello_received: bool,
    controller_name: String,
    controller_uuid: String,
    controller_version: String,
}

/// What a session stands for.
#[verifier::ext_equal]
pub struct SessionView {
    pub device_id: Seq<char>,
    pub next_message_id: u64,
    pub ready: bool,
    /// Where the camera is told to send its stream.
    pub stream_destination: Option<Seq<char>>,
    pub stream_name: Option<Seq<char>>,
    pub adoption_state: AdoptionState,
    /// The `messageId` of the last command that the controller sent of its own accord.
    pub pending_adoption_msg_id: u64,
    pub hello_received: bool,
    pub controller_name: Seq<char>,
    pub controller_uuid: Seq<char>,
    pub controller_version: Seq<char>,
}

/// An optional text.
pub open spec fn text_option(t: Option<String>) -> Option<Seq<char>> {
    match t {
        Some(s) => Some(s@),
        None => None,
    }
}

impl View for AvClientSession {
    type V = SessionView;

    closed spec fn view(&self) -> SessionView {
        SessionView {
            device_id: self.device_id@,
            next_message_id: self.next_message_id,
            ready: self.ready,
            stream_destination: text_option(self.stream_destination),
            stream_name: text_option(self.stream_name),
            adoption_state: self.adoption_state,
            pending_adoption_msg_id: self.pending_adoption_msg_id,
            hello_received: self.hello_received,
            controller_name: self.controller_name@,
            controller_uuid: self.controller_uuid@,
            controller_version: self.controller_version@,
        }
    }
}

/// The number behind `n`; numbers start over at zero.
pub open spec fn following(n: u64) -> u64 {
    if n == u64::MAX {
        0
    } else {
        (n + 1) as u64
    }
}

/// A message of the controller, its members in alphabetical order.
pub open spec fn envelope(
    function_name: Seq<char>,
    in_response_to: u64,
    message_id: u64,
    payload: JsonView,
    response_expected: bool,
    now: u64,
) -> JsonView {
    JsonView::Object(
        seq![
            ("from"@, JsonView::Str("UniFiVideo"@)),
            ("functionName"@, JsonView::Str(function_name)),
            ("inResponseTo"@, JsonView::UInt(in_response_to)),
            ("messageId"@, JsonView::UInt(message_id)),
            ("payload"@, payload),
            ("responseExpected"@, JsonView::Bool(response_expected)),
            ("timeStamp"@, JsonView::Str(iso8601(now as int))),
            ("to"@, JsonView::Str("ubnt_avclient"@)),
        ],
    )
}

/// A message as it goes over the wire.
pub open spec fn message_frame(message: JsonView) -> WsFrameView {
    WsFrameView { fin: true, opcode: Opcode::Binary, payload: encode_utf8(emitted(message)) }
}

pub open spec fn is_time_sync(function_name: Seq<char>) -> bool {
    function_name == "timeSync"@ || function_name == "ubnt_avclient_timeSync"@
}

pub open spec fn is_hello(function_name: Seq<char>) -> bool {
    function_name == "hello"@ || function_name == "ubnt_avclient_hello"@
}

/// Asks the camera to agree to the controller's parameters.
pub open spec fn param_agreement() -> JsonView {
    JsonView::Object(
        seq![
            ("enableStatusCodes"@, JsonView::Bool(true)),
            ("useHeartbeats"@, JsonView::Bool(false)),
            ("heartbeatsTimeoutMs"@, JsonView::UInt(HEARTBEATS_TIMEOUT_MS)),
        ],
    )
}

/// Tells the camera where to send its stream, and under what name.
pub open spec fn change_video_settings(destination: Seq<char>, stream_name: Seq<char>) -> JsonView {
    let parameters = JsonView::Object(
        seq![
            ("streamName"@, JsonView::Str(stream_name)),
            ("withOpus"@, JsonView::Bool(true)),
            ("opusSampleRate"@, JsonView::UInt(OPUS_SAMPLE_RATE_HZ_DEFAULT)),
        ],
    );
    let serializer = JsonView::Object(
        seq![
            ("type"@, JsonView::Str("extendedFlv"@)),
            ("parameters"@, parameters),
            ("destinations"@, JsonView::Array(seq![JsonView::Str(destination)])),
        ],
    );
    let channel = JsonView::Object(
        seq![("avSerializer"@, serializer), ("type"@, JsonView::Str("h264"@))],
    );
    JsonView::Object(seq![("video"@, JsonView::Object(seq![("video1"@, channel)]))])
}

impl SessionView {
    /// What the answer to `hello` carries: the controller's identity, and the camera's own protocol
    /// version.
    pub open spec fn hello_payload(self, m: MessageView) -> JsonView {
        JsonView::Object(
            seq![
                (
                    "protocolVersion"@,
                    JsonView::UInt(
                        match number_member(m.payload, "protocolVersion"@) {
                            Some(v) => v,
                            None => HELLO_PROTOCOL_VERSION,
                        },
                    ),
                ),
                ("controllerName"@, JsonView::Str(self.controller_name)),
                ("controllerUuid"@, JsonView::Str(self.controller_uuid)),
                ("controllerVersion"@, JsonView::Str(self.controller_version)),
                ("overrideUuid"@, JsonView::Bool(true)),
            ],
        )
    }

    /// What the answer to any other request carries.
    pub open spec fn ok_payload(self) -> JsonView {
        JsonView::Object(
            seq![
                ("statusCode"@, JsonView::UInt(0)),
                ("status"@, JsonView::Str("ok"@)),
                ("deviceID"@, JsonView::Str(self.device_id)),
            ],
        )
    }

    /// What the answer to a request carries.
    pub open spec fn answer_payload(self, m: MessageView, now: u64) -> JsonView {
        if is_time_sync(m.function_name) {
            JsonView::Object(seq![("t1"@, JsonView::UInt(now)), ("t2"@, JsonView::UInt(now))])
        } else if is_hello(m.function_name) {
            self.hello_payload(m)
        } else {
            self.ok_payload()
        }
    }

    /// The session after its answer to a request.
    pub open spec fn after_answer(self, m: MessageView) -> SessionView {
        SessionView {
            ready: self.ready || is_time_sync(m.function_name),
            hello_received: self.hello_received || (is_hello(m.function_name) && !is_time_sync(m.function_name)),
            next_message_id: following(self.next_message_id),
            ..self
        }
    }

    /// The answer to a request.
    pub open spec fn answer(self, m: MessageView, now: u64) -> JsonView {
        envelope(
            m.function_name,
            m.message_id,
            self.next_message_id,
            self.answer_payload(m, now),
            false,
            now,
        )
    }

    /// The session after a command of the controller, with adoption brought to `state`.
    pub open spec fn after_command(self, state: AdoptionState) -> SessionView {
        SessionView {
            next_message_id: following(self.next_message_id),
            pending_adoption_msg_id: self.next_message_id,
            adoption_state: state,
            ..self
        }
    }

    /// A command of the controller.
    pub open spec fn command(
        self,
        function_name: Seq<char>,
        payload: JsonView,
        response_expected: bool,
        now: u64,
    ) -> JsonView {
        envelope(function_name, 0, self.next_message_id, payload, response_expected, now)
    }

    /// Whether this message is the acknowledgement that adoption waits for.
    pub open spec fn is_awaited_ack(self, m: MessageView) -> bool {
        self.adoption_state == AdoptionState::WaitingForParamAgreementAck && m.in_response_to
            == self.pending_adoption_msg_id
    }

    /// Whether the camera has been told where its stream goes, or there is nothing to tell: no
    /// destination is set, and its `hello` has been answered.
    pub open spec fn video_settings_settled(self) -> bool {
        ||| self.adoption_state is Adopted
        ||| self.adoption_state is NotConfigured && self.hello_received
    }

    /// Where the stream goes, and under what name.
    pub open spec fn video_settings(self) -> JsonView {
        change_video_settings(
            match self.stream_destination {
                Some(d) => d,
                None => Seq::empty(),
            },
            match self.stream_name {
                Some(n) => n,
                None => "DEFAULT_0"@,
            },
        )
    }

    /// The session after a message, and what it sends. The acknowledgement that adoption waits for
    /// is followed by `ChangeVideoSettings`; any other acknowledgement by nothing; a request by its
    /// answer, and the camera's `hello` by `paramAgreement` as well.
    pub open spec fn on_message(self, m: MessageView, now: u64) -> (SessionView, Seq<WsFrameView>) {
        if self.is_awaited_ack(m) {
            (
                self.after_command(AdoptionState::Adopted),
                seq![
                    message_frame(
                        self.command("ChangeVideoSettings"@, self.video_settings(), false, now),
                    ),
                ],
            )
        } else if is_ack(m) {
            (self, Seq::empty())
        } else {
            let next = self.after_answer(m);
            let answer = message_frame(self.answer(m, now));
            if next.hello_received && next.adoption_state == AdoptionState::WaitingForHello {
                (
                    next.after_command(AdoptionState::WaitingForParamAgreementAck),
                    seq![
                        answer,
                        message_frame(
                            next.command("ubnt_avclient_paramAgreement"@, param_agreement(), true, now),
                        ),
                    ],
                )
            } else {
                (next, seq![answer])
            }
        }
    }

    /// The session after a frame, what it sends, and whether it ends.
    pub open spec fn on_frame(self, f: WsFrameView, now: u64) -> (SessionView, Seq<WsFrameView>, bool) {
        match f.opcode {
            Opcode::Ping => (
                self,
                seq![WsFrameView { fin: true, opcode: Opcode::Pong, payload: f.payload }],
                false,
            ),
            Opcode::Close => (
                self,
                seq![WsFrameView { fin: true, opcode: Opcode::Close, payload: f.payload }],
                true,
            ),
            Opcode::Pong | Opcode::Continuation => (self, Seq::empty(), false),
            Opcode::Text | Opcode::Binary => match parsed(f.payload) {
                Ok(v) => {
                    let (next, frames) = self.on_message(message_of(v), now);
                    (next, frames, false)
                },
                Err(_) => (self, Seq::empty(), false),
            },
        }
    }
}

/// Whether a message only acknowledges one of the controller's.
pub open spec fn is_ack(m: MessageView) -> bool {
    !m.response_expected && m.in_response_to != 0
}

/// What frames stand for.
pub open spec fn frame_views(frames: Seq<WsFrame>) -> Seq<WsFrameView> {
    Seq::new(frames.len(), |i: int| frames[i]@)
}

/// What to do after a frame.
#[derive(Debug, PartialEq, Eq)]
pub struct SessionStep {
    /// Frames to send, in this order.
    pub send: Vec<WsFrame>,
    /// Whether the session is over once they are sent.
    pub done: bool,
    /// Whether the frame was passed over because it holds no JSON.
    pub malformed: bool,
}

/// The number behind `n`.
fn next_id(n: u64) -> (r: u64)
    ensures
        r == following(n),
{
    if n == u64::MAX {
        0
    } else {
        n + 1
    }
}

/// Builds a message of the controller.
fn build_envelope(
    function_name: &str,
    in_response_to: u64,
    message_id: u64,
    payload: Json,
    response_expected: bool,
    now: u64,
) -> (r: Json)
    ensures
        r@ == envelope(function_name@, in_response_to, message_id, payload@, response_expected, now),
{
    let stamp = format_iso8601_utc(now);
    let members: [(&str, Json); 8] = [
        ("from", str_v("UniFiVideo")),
        ("functionName", str_v(function_name)),
        ("inResponseTo", uint(in_response_to)),
        ("messageId", uint(message_id)),
        ("payload", payload),
        ("responseExpected", bool_v(response_expected)),
        ("timeStamp", str_v(stamp.as_str())),
        ("to", str_v("ubnt_avclient")),
    ];
    let r = obj(members.as_slice());
    assert(r@->Object_0 =~= envelope(
        function_name@,
        in_response_to,
        message_id,
        payload@,
        response_expected,
        now,
    )->Object_0);
    r
}

/// The frame that carries a message.
fn frame_for(message: &Json) -> (r: WsFrame)
    ensures
        r@ == message_frame(message@),
{
    let text = emit(message);
    let mut payload: Vec<u8> = Vec::new();
    append_bytes(&mut payload, text.as_str().as_bytes());
    assert(payload@ =~= encode_utf8(emitted(message@)));
    WsFrame { fin: true, opcode: Opcode::Binary, payload }
}

impl AvClientSession {
    /// A session whose messages are numbered from 1.
    pub fn new(device_id: String) -> (r: AvClientSession)
        ensures
            r@ == initial_session(device_id@, FIRST_CONTROLLER_MESSAGE_ID),
    {
        Self::with_start(device_id, FIRST_CONTROLLER_MESSAGE_ID)
    }

    /// A session whose messages are numbered from `start_message_id`.
    pub fn with_start(device_id: String, start_message_id: u64) -> (r: AvClientSession)
        ensures
            r@ == initial_session(device_id@, start_message_id),
    {
        AvClientSession {
            device_id,
            next_message_id: start_message_id,
            ready: false,
            stream_destination: None,
            stream_name: None,
            adoption_state: AdoptionState::NotConfigured,
            pending_adoption_msg_id: 0,
            hello_received: false,
            controller_name: DEFAULT_CONTROLLER_NAME.to_owned(),
            controller_uuid: DEFAULT_CONTROLLER_UUID.to_owned(),
            controller_version: DEFAULT_CONTROLLER_VERSION.to_owned(),
        }
    }

    /// Sets who the controller says it is.
    pub fn with_controller_identity(self, name: String, uuid: String, version: String) -> (r: AvClientSession)
        ensures
            r@ == (SessionView {
                controller_name: name@,
                controller_uuid: uuid@,
                controller_version: version@,
                ..self@
            }),
    {
        let mut session = self;
        session.controller_name = name;
        session.controller_uuid = uuid;
        session.controller_version = version;
        session
    }

    /// Sets where the camera is told to send its stream; adoption then begins with its `hello`.
    pub fn with_stream_destination(self, stream_destination: String, stream_name: Option<String>) -> (r:
        AvClientSession)
        ensures
            r@ == (SessionView {
                stream_destination: Some(stream_destination@),
                stream_name: text_option(stream_name),
                adoption_state: AdoptionState::WaitingForHello,
                ..self@
            }),
    {
        let mut session = self;
        session.stream_destination = Some(stream_destination);
        session.stream_name = stream_name;
        session.adoption_state = AdoptionState::WaitingForHello;
        session
    }

    /// Whether a `timeSync` has been answered.
    pub fn is_ready(&self) -> (r: bool)
        ensures
            r == self@.ready,
    {
        self.ready
    }

    /// Whether `ChangeVideoSettings` has been sent, or was passed over: a session without a stream
    /// destination has nothing to send behind its answer to `hello`.
    pub fn change_video_settings_sent(&self) -> (r: bool)
        ensures
            r == self@.video_settings_settled(),
    {
        self.adoption_state == AdoptionState::Adopted || (self.adoption_state == AdoptionState::NotConfigured
            && self.hello_received)
    }

    /// What the answer to a request carries; notes that the camera has asked for the time or said
    /// `hello`.
    fn handler_payload(&mut self, request: &ControllerMessage, now: u64) -> (r: Json)
        ensures
            r@ == old(self)@.answer_payload(request@, now),
            final(self)@ == (SessionView {
                ready: old(self)@.ready || is_time_sync(request@.function_name),
                hello_received: old(self)@.hello_received || (is_hello(request@.function_name) && !is_time_sync(
                    request@.function_name,
                )),
                ..old(self)@
            }),
    {
        let name = request.function_name();
        if str_eq(name, "timeSync") || str_eq(name, "ubnt_avclient_timeSync") {
            self.ready = true;
            let members: [(&str, Json); 2] = [("t1", uint(now)), ("t2", uint(now))];
            let r = obj(members.as_slice());
            assert(r@->Object_0 =~= old(self)@.answer_payload(request@, now)->Object_0);
            r
        } else if str_eq(name, "hello") || str_eq(name, "ubnt_avclient_hello") {
            self.hello_received = true;
            self.hello_payload(request)
        } else {
            self.ok_payload()
        }
    }

    /// The answer to a request without an answer of its own.
    fn ok_payload(&self) -> (r: Json)
        ensures
            r@ == self@.ok_payload(),
    {
        let members: [(&str, Json); 3] = [
            ("statusCode", uint(0)),
            ("status", str_v("ok")),
            ("deviceID", str_v(self.device_id.as_str())),
        ];
        let r = obj(members.as_slice());
        assert(r@->Object_0 =~= self@.ok_payload()->Object_0);
        r
    }

    /// The answer to `hello`.
    fn hello_payload(&self, request: &ControllerMessage) -> (r: Json)
        ensures
            r@ == self@.hello_payload(request@),
    {
        let version: u64 = match request.payload_u64("protocolVersion") {
            Some(v) => v,
            None => HELLO_PROTOCOL_VERSION,
        };
        let members: [(&str, Json); 5] = [
            ("protocolVersion", uint(version)),
            ("controllerName", str_v(self.controller_name.as_str())),
            ("controllerUuid", str_v(self.controller_uuid.as_str())),
            ("controllerVersion", str_v(self.controller_version.as_str())),
            ("overrideUuid", bool_v(true)),
        ];
        let r = obj(members.as_slice());
        assert(r@->Object_0 =~= self@.hello_payload(request@)->Object_0);
        r
    }

    /// The answer to a request, under the next number.
    fn dispatch(&mut self, request: &ControllerMessage, now: u64) -> (r: Json)
        ensures
            r@ == old(self)@.answer(request@, now),
            final(self)@ == old(self)@.after_answer(request@),
    {
        let payload = self.handler_payload(request, now);
        let id: u64 = self.next_message_id;
        self.next_message_id = next_id(id);
        build_envelope(request.function_name(), request.message_id(), id, payload, false, now)
    }

    /// A command of the controller, under the next number, which is remembered.
    fn controller_message(&mut self, function_name: &str, payload: Json, response_expected: bool, now: u64) -> (r:
        Json)
        ensures
            r@ == old(self)@.command(function_name@, payload@, response_expected, now),
            final(self)@ == old(self)@.after_command(old(self)@.adoption_state),
    {
        let id: u64 = self.next_message_id;
        self.next_message_id = next_id(id);
        self.pending_adoption_msg_id = id;
        build_envelope(function_name, 0, id, payload, response_expected, now)
    }

    /// The command that asks for agreement on parameters.
    fn param_agreement_message(&mut self, now: u64) -> (r: Json)
        ensures
            r@ == old(self)@.command("ubnt_avclient_paramAgreement"@, param_agreement(), true, now),
            final(self)@ == old(self)@.after_command(old(self)@.adoption_state),
    {
        let members: [(&str, Json); 3] = [
            ("enableStatusCodes", bool_v(true)),
            ("useHeartbeats", bool_v(false)),
            ("heartbeatsTimeoutMs", uint(HEARTBEATS_TIMEOUT_MS)),
        ];
        let payload = obj(members.as_slice());
        assert(payload@->Object_0 =~= param_agreement()->Object_0);
        self.controller_message("ubnt_avclient_paramAgreement", payload, true, now)
    }

    /// The command that starts the stream.
    fn change_video_settings_message(&mut self, now: u64) -> (r: Json)
        ensures
            r@ == old(self)@.command("ChangeVideoSettings"@, old(self)@.video_settings(), false, now),
            final(self)@ == old(self)@.after_command(old(self)@.adoption_state),
    {
        let destination = match &self.stream_destination {
            Some(d) => str_v(d.as_str()),
            None => str_v(""),
        };
        proof {
            reveal_strlit("");
            assert(""@ =~= Seq::empty());
        }
        let stream_name = match &self.stream_name {
            Some(n) => str_v(n.as_str()),
            None => str_v("DEFAULT_0"),
        };
        let ghost settings = self@.video_settings();
        let parameter_members: [(&str, Json); 3] = [
            ("streamName", stream_name),
            ("withOpus", bool_v(true)),
            ("opusSampleRate", uint(OPUS_SAMPLE_RATE_HZ_DEFAULT)),
        ];
        let parameters = obj(parameter_members.as_slice());
        let ghost channel_view = settings->Object_0[0].1->Object_0[0].1;
        let ghost serializer_view = channel_view->Object_0[0].1;
        assert(parameters@->Object_0 =~= serializer_view->Object_0[1].1->Object_0);
        let mut destination_list: Vec<Json> = Vec::new();
        destination_list.push(destination);
        let destinations = array(destination_list);
        assert(destinations@->Array_0 =~= serializer_view->Object_0[2].1->Array_0);
        let serializer_members: [(&str, Json); 3] = [
            ("type", str_v("extendedFlv")),
            ("parameters", parameters),
            ("destinations", destinations),
        ];
        let serializer = obj(serializer_members.as_slice());
        assert(serializer@->Object_0 =~= serializer_view->Object_0);
        let channel_members: [(&str, Json); 2] = [("avSerializer", serializer), ("type", str_v("h264"))];
        let channel = obj(channel_members.as_slice());
        assert(channel@->Object_0 =~= channel_view->Object_0);
        let video_members: [(&str, Json); 1] = [("video1", channel)];
        let video = obj(video_members.as_slice());
        assert(video@->Object_0 =~= settings->Object_0[0].1->Object_0);
        let payload_members: [(&str, Json); 1] = [("video", video)];
        let payload = obj(payload_members.as_slice());
        assert(payload@->Object_0 =~= settings->Object_0);
        self.controller_message("ChangeVideoSettings", payload, false, now)
    }

    /// Takes a message and gives the frames to send.
    fn handle_message(&mut self, request: &ControllerMessage, now: u64) -> (r: Vec<WsFrame>)
        ensures
            (final(self)@, frame_views(r@)) == old(self)@.on_message(request@, now),
    {
        let mut send: Vec<WsFrame> = Vec::new();
        assert(frame_views(send@) =~= Seq::empty());
        if self.adoption_state == AdoptionState::WaitingForParamAgreementAck && request.in_response_to()
            == self.pending_adoption_msg_id {
            let message = self.change_video_settings_message(now);
            send.push(frame_for(&message));
            self.adoption_state = AdoptionState::Adopted;
            assert(frame_views(send@) =~= seq![message_frame(message@)]);
            return send;
        }
        if !request.response_expected() && request.in_response_to() != 0 {
            return send;
        }
        let reply = self.dispatch(request, now);
        send.push(frame_for(&reply));
        assert(frame_views(send@) =~= seq![message_frame(reply@)]);
        if self.hello_received && self.adoption_state == AdoptionState::WaitingForHello {
            let message = self.param_agreement_message(now);
            send.push(frame_for(&message));
            self.adoption_state = AdoptionState::WaitingForParamAgreementAck;
            assert(frame_views(send@) =~= seq![message_frame(reply@), message_frame(message@)]);
        }
        send
    }

    /// Takes the next frame from the camera, at the time `now` in milliseconds since the Unix epoch.
    /// A ping is answered with a pong and a close with a close; what holds no JSON is passed over.
    pub fn on_frame(&mut self, frame: WsFrame, now: u64) -> (r: SessionStep)
        ensures
            (final(self)@, frame_views(r.send@), r.done) == old(self)@.on_frame(frame@, now),
            r.malformed == ((frame.opcode is Text || frame.opcode is Binary) && parsed(frame.payload@) is Err),
    {
        let mut send: Vec<WsFrame> = Vec::new();
        assert(frame_views(send@) =~= Seq::empty());
        match frame.opcode {
            Opcode::Ping => {
                send.push(WsFrame { fin: true, opcode: Opcode::Pong, payload: frame.payload });
                assert(frame_views(send@) =~= seq![
                    WsFrameView { fin: true, opcode: Opcode::Pong, payload: frame.payload@ },
                ]);
                SessionStep { send, done: false, malformed: false }
            },
            Opcode::Close => {
                send.push(WsFrame { fin: true, opcode: Opcode::Close, payload: frame.payload });
                assert(frame_views(send@) =~= seq![
                    WsFrameView { fin: true, opcode: Opcode::Close, payload: frame.payload@ },
                ]);
                SessionStep { send, done: true, malformed: false }
            },
            Opcode::Pong | Opcode::Continuation => SessionStep { send, done: false, malformed: false },
            Opcode::Text | Opcode::Binary => match ControllerMessage::parse(frame.payload.as_slice()) {
                Ok(request) => {
                    let frames = self.handle_message(&request, now);
                    SessionStep { send: frames, done: false, malformed: false }
                },
                Err(_) => SessionStep { send, done: false, malformed: true },
            },
        }
    }
}

/// A session that has seen nothing.
pub open spec fn initial_session(device_id: Seq<char>, start_message_id: u64) -> SessionView {
    SessionView {
        device_id,
        next_message_id: start_message_id,
        ready: false,
        stream_destination: None,
        stream_name: None,
        adoption_state: AdoptionState::NotConfigured,
        pending_adoption_msg_id: 0,
        hello_received: false,
        controller_name: DEFAULT_CONTROLLER_NAME@,
        controller_uuid: DEFAULT_CONTROLLER_UUID@,
        controller_version: DEFAULT_CONTROLLER_VERSION@,
    }
}

} // verus!
