//! One RTSP client's connection: how requests, sessions and the hub's clients go together.

use crate::bytes::{append_bytes, copy_range};
use crate::rtsp_protocol::{
    Method, Parsed, RequestView, ResponseView, RtspError, RtspRequest, RtspResponse, RtspSessions,
    SESSION_TIMEOUT_SECS, STATUS_BAD_REQUEST, STATUS_OK, STATUS_SERVICE_UNAVAILABLE, STATUS_UNSUPPORTED_TRANSPORT,
    SessionsView, Transport, bare, bare_response, handle_request, id_in, parse_request, parsed, rate_of,
    response_bytes, served, session_id, session_index, some_playing,
};
use crate::rtsp_pump::{drain_client_interleaved_frames, drained};
use crate::stream_state::{all_hung_up, all_released, ChannelView, ClientId, HubView, StreamState};
use crate::text::str_eq;
use vstd::prelude::*;

verus! {

/// No more than this may have arrived without being a request.
pub const MAX_READ_BUFFER_BYTES: usize = 65536;

/// No more than this many clients are served at a time.
pub const MAX_RTSP_CLIENTS: usize = 32;

/// Decides whether another client is served, when `active` are.
pub fn admits(active: usize) -> (r: bool)
    ensures
        r == (active < MAX_RTSP_CLIENTS),
{
    active < MAX_RTSP_CLIENTS
}

/// What a client over the limit is sent.
pub fn refusal() -> (r: Vec<u8>)
    ensures
        r@ == response_bytes(bare(STATUS_SERVICE_UNAVAILABLE, None)),
{
    bare_response(STATUS_SERVICE_UNAVAILABLE, None).to_bytes()
}

/// Decides whether a silent connection is closed: not while a session plays, for then nothing needs
/// to come.
pub fn reap_if_idle(sessions: &RtspSessions, silent_secs: u64) -> (r: bool)
    ensures
        r == (!some_playing(sessions@.sessions) && silent_secs >= SESSION_TIMEOUT_SECS),
{
    if sessions.any_playing() {
        return false;
    }
    silent_secs >= SESSION_TIMEOUT_SECS as u64
}

/// A session's client of the hub.
#[derive(Debug, PartialEq, Eq)]
pub struct Registration {
    id: String,
    client_id: ClientId,
    /// Whether nobody reads its frames yet.
    waiting: bool,
    transport: Transport,
}

/// What a session's client stands for.
#[verifier::ext_equal]
pub struct RegistrationView {
    pub id: Seq<char>,
    pub client_id: ClientId,
    pub waiting: bool,
    pub transport: Transport,
}

impl View for Registration {
    type V = RegistrationView;

    closed spec fn view(&self) -> RegistrationView {
        RegistrationView {
            id: self.id@,
            client_id: self.client_id,
            waiting: self.waiting,
            transport: self.transport,
        }
    }
}

/// What a list of clients stands for.
pub open spec fn registration_views(v: Seq<Registration>) -> Seq<RegistrationView> {
    Seq::new(v.len(), |i: int| v[i]@)
}

/// The first client from `i` on of a session.
pub open spec fn registration_index(v: Seq<RegistrationView>, id: Seq<char>, i: int) -> Option<int>
    decreases v.len() - i,
{
    if i < 0 || i >= v.len() {
        None
    } else if v[i].id == id {
        Some(i)
    } else {
        registration_index(v, id, i + 1)
    }
}

/// The clients after one came for a session; it takes the place of one that was there.
pub open spec fn registered(v: Seq<RegistrationView>, new: RegistrationView) -> Seq<RegistrationView> {
    match registration_index(v, new.id, 0) {
        Some(i) => v.update(i, new),
        None => v.push(new),
    }
}

/// The hub's queues after a session's client was let go. Nobody else reads the queue of one that
/// waits, so that is given up too.
pub open spec fn freed(channels: Seq<ChannelView>, client: RegistrationView) -> Seq<ChannelView> {
    let released = all_released(channels, client.client_id);
    if client.waiting {
        all_hung_up(released, client.client_id)
    } else {
        released
    }
}

/// The hub's queues after clients were let go, one after the other.
pub open spec fn all_freed(channels: Seq<ChannelView>, clients: Seq<RegistrationView>) -> Seq<ChannelView>
    decreases clients.len(),
{
    if clients.len() == 0 {
        channels
    } else {
        freed(all_freed(channels, clients.drop_last()), clients.last())
    }
}

/// A connection.
pub struct RtspConnection {
    buf: Vec<u8>,
    sessions: RtspSessions,
    clients: Vec<Registration>,
    /// A session whose port is still to be bound, and its answer.
    pending: Option<(Registration, RtspResponse)>,
}

/// What a connection stands for.
#[verifier::ext_equal]
pub struct ConnectionView {
    pub buf: Seq<u8>,
    pub sessions: SessionsView,
    pub clients: Seq<RegistrationView>,
    pub pending: Option<(RegistrationView, ResponseView)>,
}

impl View for RtspConnection {
    type V = ConnectionView;

    closed spec fn view(&self) -> ConnectionView {
        ConnectionView {
            buf: self.buf@,
            sessions: self.sessions@,
            clients: registration_views(self.clients@),
            pending: match self.pending {
                Some((c, r)) => Some((c@, r@)),
                None => None,
            },
        }
    }
}

/// What to do on a connection next.
#[derive(Debug, PartialEq, Eq)]
pub enum ControlStep {
    /// Read on.
    Wait,
    /// Send this.
    Reply { bytes: Vec<u8>, method: Method, status: u16 },
    /// Bind this port, and report.
    Bind { server_rtp: u16 },
    /// Start to send a client's frames, and send this.
    Play { bytes: Vec<u8>, client_id: ClientId, transport: Transport },
    /// Send this and close. The request was not RTSP: its version is given where it has one.
    Refuse { bytes: Vec<u8>, version: Option<String> },
}

/// What a step stands for.
pub enum StepView {
    Wait,
    Reply(Seq<u8>, Method, u16),
    Bind(u16),
    Play(Seq<u8>, ClientId, Transport),
    Refuse(Seq<u8>, Option<Seq<char>>),
}

impl View for ControlStep {
    type V = StepView;

    open spec fn view(&self) -> StepView {
        match *self {
            ControlStep::Wait => StepView::Wait,
            ControlStep::Reply { bytes, method, status } => StepView::Reply(bytes@, method, status),
            ControlStep::Bind { server_rtp } => StepView::Bind(server_rtp),
            ControlStep::Play { bytes, client_id, transport } => StepView::Play(bytes@, client_id, transport),
            ControlStep::Refuse { bytes, version } => StepView::Refuse(
                bytes@,
                match version {
                    Some(v) => Some(v@),
                    None => None,
                },
            ),
        }
    }
}

/// A step, and the connection and the hub after it.
pub struct Outcome {
    pub step: StepView,
    pub connection: ConnectionView,
    pub hub: HubView,
}

/// The answer to a request that changes no client.
pub open spec fn replied(c: ConnectionView, hub: HubView, method: Method, resp: ResponseView) -> Outcome {
    Outcome { step: StepView::Reply(response_bytes(resp), method, resp.status), connection: c, hub }
}

/// After `SETUP`: the session gets a client of the hub. For datagrams a port has to be bound first.
pub open spec fn after_setup(c: ConnectionView, hub: HubView, resp: ResponseView) -> Outcome {
    match resp.session {
        None => replied(c, hub, Method::Setup, resp),
        Some(value) => match session_index(c.sessions.sessions, id_in(value), 0) {
            None => replied(c, hub, Method::Setup, resp),
            Some(k) => {
                let transport = c.sessions.sessions[k].transport;
                let client = RegistrationView {
                    id: id_in(value),
                    client_id: ClientId(hub.next_client_id),
                    waiting: true,
                    transport,
                };
                match transport {
                    Transport::Udp { client_rtp, client_rtcp, server_rtp, server_rtcp } => Outcome {
                        step: StepView::Bind(server_rtp),
                        connection: ConnectionView { pending: Some((client, resp)), ..c },
                        hub: hub.with_client(),
                    },
                    Transport::Interleaved { rtp_ch, rtcp_ch } => replied(
                        ConnectionView { clients: registered(c.clients, client), ..c },
                        hub.with_client(),
                        Method::Setup,
                        resp,
                    ),
                }
            },
        },
    }
}

/// After `PLAY`: whoever sends takes over the client's frames, once.
pub open spec fn after_play(c: ConnectionView, hub: HubView, id: Option<Seq<char>>, resp: ResponseView) -> Outcome {
    match id {
        None => replied(c, hub, Method::Play, resp),
        Some(id) => match registration_index(c.clients, id, 0) {
            None => replied(c, hub, Method::Play, resp),
            Some(i) => if !c.clients[i].waiting {
                replied(c, hub, Method::Play, resp)
            } else {
                Outcome {
                    step: StepView::Play(response_bytes(resp), c.clients[i].client_id, c.clients[i].transport),
                    connection: ConnectionView {
                        clients: c.clients.update(i, RegistrationView { waiting: false, ..c.clients[i] }),
                        ..c
                    },
                    hub,
                }
            },
        },
    }
}

/// After `TEARDOWN`: the hub lets the client go.
pub open spec fn after_teardown(c: ConnectionView, hub: HubView, id: Option<Seq<char>>, resp: ResponseView) -> Outcome {
    match id {
        None => replied(c, hub, Method::Teardown, resp),
        Some(id) => match registration_index(c.clients, id, 0) {
            None => replied(c, hub, Method::Teardown, resp),
            Some(i) => replied(
                ConnectionView { clients: c.clients.remove(i), ..c },
                HubView { channels: freed(hub.channels, c.clients[i]), ..hub },
                Method::Teardown,
                resp,
            ),
        },
    }
}

/// After a request.
pub open spec fn after_request(
    c: ConnectionView,
    hub: HubView,
    req: RequestView,
    len: int,
    server_ip: Seq<char>,
    fps: Option<Seq<char>>,
    server_rtp: u16,
) -> Outcome {
    let (resp, sessions) = served(req, c.sessions, server_ip, hub.codec, fps, server_rtp);
    let next = ConnectionView { buf: c.buf.skip(len), sessions, ..c };
    if resp.status != STATUS_OK {
        replied(next, hub, req.method, resp)
    } else {
        match req.method {
            Method::Setup => after_setup(next, hub, resp),
            Method::Play => after_play(next, hub, req.session, resp),
            Method::Teardown => after_teardown(next, hub, req.session, resp),
            _ => replied(next, hub, req.method, resp),
        }
    }
}

/// After the next request, if one has arrived. What is no request is refused, and nothing is kept of
/// it: where the next one would begin is not known.
pub open spec fn after_next(
    c: ConnectionView,
    hub: HubView,
    server_ip: Seq<char>,
    fps: Option<Seq<char>>,
    server_rtp: u16,
) -> Outcome {
    let refusal = response_bytes(bare(STATUS_BAD_REQUEST, None));
    match parsed(c.buf) {
        Parsed::Part => Outcome { step: StepView::Wait, connection: c, hub },
        Parsed::Foreign(version) => Outcome {
            step: StepView::Refuse(refusal, Some(version)),
            connection: ConnectionView { buf: Seq::empty(), ..c },
            hub,
        },
        Parsed::Malformed => Outcome {
            step: StepView::Refuse(refusal, None),
            connection: ConnectionView { buf: Seq::empty(), ..c },
            hub,
        },
        Parsed::Request(req, len) => after_request(c, hub, req, len, server_ip, fps, server_rtp),
    }
}

/// After a port was bound, or could not be. Where it could not, the session is undone.
pub open spec fn after_binding(c: ConnectionView, hub: HubView, bound: bool) -> Outcome {
    match c.pending {
        None => Outcome { step: StepView::Wait, connection: c, hub },
        Some((client, resp)) => if bound {
            replied(
                ConnectionView { clients: registered(c.clients, client), pending: None, ..c },
                hub,
                Method::Setup,
                resp,
            )
        } else {
            replied(
                ConnectionView { sessions: c.sessions.without(client.id), pending: None, ..c },
                HubView { channels: freed(hub.channels, client), ..hub },
                Method::Setup,
                bare(STATUS_SERVICE_UNAVAILABLE, resp.cseq),
            )
        },
    }
}

/// Whether an answer is worth a warning.
pub fn is_worth_a_warning(status: u16) -> (r: bool)
    ensures
        r == (status == STATUS_UNSUPPORTED_TRANSPORT || status == STATUS_SERVICE_UNAVAILABLE),
{
    status == STATUS_UNSUPPORTED_TRANSPORT || status == STATUS_SERVICE_UNAVAILABLE
}

/// First of the ports that frames are sent from.
pub const FIRST_RTP_PORT: u16 = 50_000;

/// How many ports there are to send from.
pub const RTP_PORT_SPAN: u16 = 10_000;

/// The port that frames are sent from, for the number that a session has: an even one, so that there
/// is a port behind it.
pub fn rtp_port(count: u16) -> (r: u16)
    ensures
        r == FIRST_RTP_PORT + (count % RTP_PORT_SPAN) / 2 * 2,
        r % 2 == 0,
        r < u16::MAX,
{
    FIRST_RTP_PORT + count % RTP_PORT_SPAN / 2 * 2
}

/// Lets a session's client go.
fn free(hub: &mut StreamState, client: &Registration)
    ensures
        final(hub)@ == (HubView { channels: freed(old(hub)@.channels, client@), ..old(hub)@ }),
{
    hub.remove_client(client.client_id);
    if client.waiting {
        hub.disconnect(client.client_id);
    }
}

impl RtspConnection {
    /// A connection on which nothing has arrived.
    pub fn new() -> (r: RtspConnection)
        ensures
            r@ == (ConnectionView {
                buf: Seq::empty(),
                sessions: SessionsView { sessions: Seq::empty(), next: 1 },
                clients: Seq::empty(),
                pending: None,
            }),
    {
        let r = RtspConnection {
            buf: Vec::new(),
            sessions: RtspSessions::new(),
            clients: Vec::new(),
            pending: None,
        };
        assert(r@.clients =~= Seq::empty());
        r
    }

    /// Takes what has been read; packets that the client sent are dropped. Gives whether the
    /// connection stays: one that sends too much is closed.
    pub fn on_bytes(&mut self, chunk: &[u8]) -> (r: bool)
        ensures
            r == (old(self)@.buf.len() + chunk@.len() <= MAX_READ_BUFFER_BYTES),
            r ==> final(self)@ == (ConnectionView { buf: drained(old(self)@.buf + chunk@), ..old(self)@ }),
            !r ==> final(self)@ == (ConnectionView { buf: old(self)@.buf + chunk@, ..old(self)@ }),
    {
        append_bytes(&mut self.buf, chunk);
        if self.buf.len() > MAX_READ_BUFFER_BYTES {
            return false;
        }
        drain_client_interleaved_frames(&mut self.buf);
        true
    }

    /// Decides whether the connection is closed after a silence.
    pub fn is_idle(&self, silent_secs: u64) -> (r: bool)
        ensures
            r == (!some_playing(self@.sessions.sessions) && silent_secs >= SESSION_TIMEOUT_SECS),
    {
        reap_if_idle(&self.sessions, silent_secs)
    }

    /// Finds a session's client.
    fn find(&self, id: &str) -> (r: Option<usize>)
        ensures
            match registration_index(self@.clients, id@, 0) {
                Some(k) => r matches Some(i) && i == k && i < self.clients@.len(),
                None => r is None,
            },
    {
        let ghost views = registration_views(self.clients@);
        let mut i: usize = 0;
        while i < self.clients.len()
            invariant
                views == registration_views(self.clients@),
                views == self@.clients,
                registration_index(views, id@, 0) == registration_index(views, id@, i as int),
            decreases self.clients@.len() - i,
        {
            assert(views[i as int] == self.clients@[i as int]@);
            if str_eq(self.clients[i].id.as_str(), id) {
                return Some(i);
            }
            i += 1;
        }
        None
    }

    /// Takes a session's client.
    fn register(&mut self, client: Registration)
        ensures
            final(self)@ == (ConnectionView {
                clients: registered(old(self)@.clients, client@),
                ..old(self)@
            }),
    {
        let ghost before = registration_views(self.clients@);
        match self.find(client.id.as_str()) {
            Some(i) => {
                self.clients.set(i, client);
                assert(registration_views(self.clients@) =~= before.update(i as int, client@));
            },
            None => {
                self.clients.push(client);
                assert(registration_views(self.clients@) =~= before.push(client@));
            },
        }
    }

    /// Gives the session that was set up a client of the hub.
    fn wire_setup(&mut self, hub: &mut StreamState, resp: RtspResponse) -> (r: ControlStep)
        requires
            resp.status == STATUS_OK,
        ensures
            (Outcome { step: r@, connection: final(self)@, hub: final(hub)@ }) == after_setup(
                old(self)@,
                old(hub)@,
                resp@,
            ),
    {
        let status = resp.status;
        let id = match &resp.session {
            Some(value) => session_id(value.as_str()),
            None => return ControlStep::Reply { bytes: resp.to_bytes(), method: Method::Setup, status },
        };
        let transport = match self.sessions.get(id.as_str()) {
            Some(session) => session.transport,
            None => return ControlStep::Reply { bytes: resp.to_bytes(), method: Method::Setup, status },
        };
        let client_id = hub.add_client();
        let client = Registration { id, client_id, waiting: true, transport };
        match transport {
            Transport::Udp { client_rtp: _, client_rtcp: _, server_rtp, server_rtcp: _ } => {
                self.pending = Some((client, resp));
                ControlStep::Bind { server_rtp }
            },
            Transport::Interleaved { rtp_ch: _, rtcp_ch: _ } => {
                self.register(client);
                ControlStep::Reply { bytes: resp.to_bytes(), method: Method::Setup, status }
            },
        }
    }

    /// Hands a session's client to whoever sends its frames.
    fn wire_play(&mut self, req: &RtspRequest, resp: &RtspResponse, Ghost(hub): Ghost<HubView>) -> (r: ControlStep)
        requires
            resp.status == STATUS_OK,
        ensures
            (Outcome { step: r@, connection: final(self)@, hub }) == after_play(
                old(self)@,
                hub,
                req@.session,
                resp@,
            ),
    {
        let bytes = resp.to_bytes();
        let id = match &req.session {
            Some(id) => id,
            None => return ControlStep::Reply { bytes, method: Method::Play, status: resp.status },
        };
        let ghost before = registration_views(self.clients@);
        match self.find(id.as_str()) {
            Some(i) => {
                assert(before[i as int] == self.clients@[i as int]@);
                if self.clients[i].waiting {
                    let client_id = self.clients[i].client_id;
                    let transport = self.clients[i].transport;
                    let same = self.clients[i].id.as_str().to_owned();
                    let client = Registration { id: same, client_id, waiting: false, transport };
                    self.clients.set(i, client);
                    assert(registration_views(self.clients@) =~= before.update(i as int, client@));
                    ControlStep::Play { bytes, client_id, transport }
                } else {
                    ControlStep::Reply { bytes, method: Method::Play, status: resp.status }
                }
            },
            None => ControlStep::Reply { bytes, method: Method::Play, status: resp.status },
        }
    }

    /// Lets the client of a session that has gone go.
    fn wire_teardown(&mut self, hub: &mut StreamState, req: &RtspRequest, resp: &RtspResponse) -> (r: ControlStep)
        requires
            resp.status == STATUS_OK,
        ensures
            (Outcome { step: r@, connection: final(self)@, hub: final(hub)@ }) == after_teardown(
                old(self)@,
                old(hub)@,
                req@.session,
                resp@,
            ),
    {
        let ghost before = registration_views(self.clients@);
        if let Some(id) = &req.session {
            if let Some(i) = self.find(id.as_str()) {
                assert(before[i as int] == self.clients@[i as int]@);
                let client = self.clients.remove(i);
                assert(registration_views(self.clients@) =~= before.remove(i as int));
                free(hub, &client);
            }
        }
        ControlStep::Reply { bytes: resp.to_bytes(), method: Method::Teardown, status: resp.status }
    }

    /// Serves the next request, if one has arrived. `fps` is the stream's frame rate as text, and
    /// `server_rtp` a port that a stream of datagrams could be sent from.
    pub fn next_step(
        &mut self,
        hub: &mut StreamState,
        server_ip: &str,
        fps: Option<&str>,
        server_rtp: u16,
    ) -> (r: ControlStep)
        requires
            server_rtp < u16::MAX,
        ensures
            (Outcome { step: r@, connection: final(self)@, hub: final(hub)@ }) == after_next(
                old(self)@,
                old(hub)@,
                server_ip@,
                rate_of(fps),
                server_rtp,
            ),
    {
        match parse_request(self.buf.as_slice()) {
            Ok(None) => ControlStep::Wait,
            Err(e) => {
                self.buf = Vec::new();
                let bytes = bare_response(STATUS_BAD_REQUEST, None).to_bytes();
                assert(self.buf@ =~= Seq::empty());
                match e {
                    RtspError::NonRtspVersion(v) => ControlStep::Refuse { bytes, version: Some(v) },
                    RtspError::Malformed => ControlStep::Refuse { bytes, version: None },
                }
            },
            Ok(Some((req, consumed))) => {
                let codec = hub.codec();
                let resp = handle_request(&req, &mut self.sessions, server_ip, codec.as_ref(), fps, server_rtp);
                let total: usize = self.buf.len();
                let rest = copy_range(self.buf.as_slice(), consumed, total);
                assert(rest@ =~= self.buf@.skip(consumed as int));
                self.buf = rest;
                let method = req.method;
                let status = resp.status;
                if status != STATUS_OK {
                    return ControlStep::Reply { bytes: resp.to_bytes(), method, status };
                }
                match method {
                    Method::Setup => self.wire_setup(hub, resp),
                    Method::Play => self.wire_play(&req, &resp, Ghost(hub@)),
                    Method::Teardown => self.wire_teardown(hub, &req, &resp),
                    _ => ControlStep::Reply { bytes: resp.to_bytes(), method, status },
                }
            },
        }
    }

    /// Goes on after a port was bound, or could not be.
    pub fn on_bound(&mut self, hub: &mut StreamState, bound: bool) -> (r: ControlStep)
        ensures
            (Outcome { step: r@, connection: final(self)@, hub: final(hub)@ }) == after_binding(
                old(self)@,
                old(hub)@,
                bound,
            ),
    {
        match self.pending.take() {
            None => ControlStep::Wait,
            Some((client, resp)) => if bound {
                self.register(client);
                let status = resp.status;
                ControlStep::Reply { bytes: resp.to_bytes(), method: Method::Setup, status }
            } else {
                self.sessions.remove(client.id.as_str());
                free(hub, &client);
                let refusal = bare_response(STATUS_SERVICE_UNAVAILABLE, resp.cseq);
                ControlStep::Reply {
                    bytes: refusal.to_bytes(),
                    method: Method::Setup,
                    status: STATUS_SERVICE_UNAVAILABLE,
                }
            },
        }
    }

    /// Lets all clients go: the connection has ended.
    pub fn cleanup(&mut self, hub: &mut StreamState)
        ensures
            final(hub)@ == (HubView {
                channels: all_freed(old(hub)@.channels, all_clients(old(self)@)),
                ..old(hub)@
            }),
            final(self)@ == (ConnectionView { clients: Seq::empty(), pending: None, ..old(self)@ }),
    {
        let ghost views = registration_views(self.clients@);
        let ghost all = all_clients(self@);
        let mut i: usize = 0;
        assert(views.take(0) =~= Seq::empty());
        while i < self.clients.len()
            invariant
                i <= self.clients@.len(),
                *self == *old(self),
                views == registration_views(self.clients@),
                hub@ == (HubView {
                    channels: all_freed(old(hub)@.channels, views.take(i as int)),
                    ..old(hub)@
                }),
            decreases self.clients@.len() - i,
        {
            free(hub, &self.clients[i]);
            proof {
                assert(views.take(i + 1).drop_last() =~= views.take(i as int));
                assert(views.take(i + 1).last() == self.clients@[i as int]@);
            }
            i += 1;
        }
        assert(views.take(views.len() as int) =~= views);
        match self.pending.take() {
            Some((client, _)) => {
                free(hub, &client);
                proof {
                    assert(all.drop_last() =~= views);
                    assert(all.last() == client@);
                }
            },
            None => {
                assert(all =~= views);
            },
        }
        self.clients = Vec::new();
        assert(registration_views(self.clients@) =~= Seq::empty());
    }
}

/// The clients that a connection holds.
pub open spec fn all_clients(c: ConnectionView) -> Seq<RegistrationView> {
    match c.pending {
        Some((client, resp)) => c.clients.push(client),
        None => c.clients,
    }
}

} // verus!
