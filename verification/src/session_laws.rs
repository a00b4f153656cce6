//! Laws of RTSP sessions: what each request does to the sessions of a connection, to its clients and
//! to the hub.

use crate::hub_laws::{
    has_own_ids, is_bounded, law_joining_client_is_registered, law_leaving_touches_nobody_else,
    law_removed_client_is_gone,
};
use crate::rtsp_laws::{lemma_added_session, lemma_freed, lemma_given_id, lemma_index};
use crate::rtsp_protocol::{
    accepted, begins_with, chosen, first_accepted, number_pair, numbered_id, parameter, parsed, response_bytes, served, session_index, set_up, Method, Parsed, RequestView,
    SessionView, SessionsView, Transport, SESSION_TIMEOUT_SECS,
};
use crate::rtsp_server::{
    after_binding, after_next, after_request, after_setup, all_clients, freed, registered, registration_index,
    ConnectionView, Outcome, RegistrationView, StepView,
};
use crate::stream_state::{
    all_hung_up, all_released, is_registered, ClientId, CodecView, HubView,
};
use crate::text::{decimal, is_digit, law_decimal_reads_back, pieces, trimmed, white_space};
use crate::text_laws::{
    lacks, lemma_first_piece, lemma_lacks_sum, lemma_numeral, lemma_one_piece, lemma_trimmed_already,
};
use vstd::prelude::*;

verus! {

/// Whether a connection has a session with this id.
pub open spec fn has_session(c: ConnectionView, id: Seq<char>) -> bool {
    exists|i: int| 0 <= i < c.sessions.sessions.len() && (#[trigger] c.sessions.sessions[i]).id == id
}

/// Whether a client of the hub is one of the connection's.
pub open spec fn has_client(c: ConnectionView, client: ClientId) -> bool {
    exists|i: int| 0 <= i < all_clients(c).len() && (#[trigger] all_clients(c)[i]).client_id == client
}

/// Whether the hub is in order: no queue is over its capacity, and no two clients share a number.
pub open spec fn is_in_order(hub: HubView) -> bool {
    is_bounded(hub.channels) && has_own_ids(hub.channels, hub.next_client_id)
}

/// A search for a session finds it iff there is one.
proof fn lemma_session_found(c: ConnectionView, id: Seq<char>, from: int)
    requires
        0 <= from,
    ensures
        session_index(c.sessions.sessions, id, from) is Some <==> exists|i: int|
            from <= i < c.sessions.sessions.len() && (#[trigger] c.sessions.sessions[i]).id == id,
        session_index(c.sessions.sessions, id, from) matches Some(i) ==> from <= i < c.sessions.sessions.len()
            && c.sessions.sessions[i].id == id && forall|j: int|
            from <= j < i ==> (#[trigger] c.sessions.sessions[j]).id != id,
    decreases c.sessions.sessions.len() - from,
{
    if from < c.sessions.sessions.len() && c.sessions.sessions[from].id != id {
        lemma_session_found(c, id, from + 1);
    }
}

/// A search finds the first client of a session.
proof fn lemma_client_found(v: Seq<RegistrationView>, id: Seq<char>, from: int, k: int)
    requires
        0 <= from <= k < v.len(),
        v[k].id == id,
        forall|j: int| from <= j < k ==> (#[trigger] v[j]).id != id,
    ensures
        registration_index(v, id, from) == Some(k),
    decreases k - from,
{
    if from < k {
        lemma_client_found(v, id, from + 1, k);
    }
}

/// A `TEARDOWN` is answered with 200 iff its session exists, else with 454 and nothing is changed.
/// After 200 the session is gone and the client that it had is registered at the hub no more; every
/// other client stays as it is.
pub proof fn law_teardown_lets_the_client_go(
    c: ConnectionView,
    hub: HubView,
    req: RequestView,
    len: int,
    server_ip: Seq<char>,
    fps: Option<Seq<char>>,
    server_rtp: u16,
    id: Seq<char>,
    k: int,
)
    requires
        is_in_order(hub),
        req.method == Method::Teardown,
        req.session == Some(id),
        0 <= k < c.clients.len(),
        c.clients[k].id == id,
        forall|j: int| 0 <= j < k ==> (#[trigger] c.clients[j]).id != id,
    ensures
        ({
            let out = after_request(c, hub, req, len, server_ip, fps, server_rtp);
            let client = c.clients[k].client_id;
            &&& has_session(c, id) ==> {
                &&& out.step matches StepView::Reply(_, method, status) && method == Method::Teardown && status == 200
                &&& !is_registered(out.hub.channels, client)
                &&& forall|other: ClientId|
                    other != client ==> is_registered(out.hub.channels, other) == is_registered(hub.channels, other)
                &&& out.connection.clients == c.clients.remove(k)
                &&& out.connection.sessions.sessions.len() == c.sessions.sessions.len() - 1
                &&& out.hub.codec == hub.codec
            }
            &&& !has_session(c, id) ==> {
                &&& out.step matches StepView::Reply(_, method, status) && method == Method::Teardown && status == 454
                &&& out.hub == hub
                &&& out.connection == (ConnectionView { buf: c.buf.skip(len), ..c })
            }
        }),
{
    lemma_session_found(c, id, 0);
    lemma_client_found(c.clients, id, 0, k);
    let client = c.clients[k];
    lemma_freed(hub, client);
    lemma_freed_keeps(hub, client);
}

/// To let a client go registers nobody and lets nobody else go.
proof fn lemma_freed_keeps(hub: HubView, client: RegistrationView)
    requires
        is_in_order(hub),
    ensures
        forall|other: ClientId|
            other != client.client_id ==> is_registered(freed(hub.channels, client), other) == is_registered(
                hub.channels,
                other,
            ),
{
    let id = client.client_id;
    law_removed_client_is_gone(hub, id);
    lemma_freed(hub, client);
    if client.waiting {
        let released = all_released(hub.channels, id);
        assert forall|other: ClientId| other != id && is_registered(hub.channels, other) implies is_registered(
            freed(hub.channels, client),
            other,
        ) by {
            assert(is_registered(released, other));
            let i = choose|i: int| 0 <= i < released.len() && (#[trigger] released[i]).id == other && released[i].registered;
            let h = HubView { channels: released, ..hub };
            law_leaving_touches_nobody_else(h, id, i);
            let after = all_hung_up(released, id);
            let j = choose|j: int| 0 <= j < after.len() && after[j] == released[i];
            assert(after[j].id == other && after[j].registered);
        }
    }
}

/// What a new session does: the client asks for a transport that can be had.
proof fn lemma_new_session(c: ConnectionView, hub: HubView, cseq: Option<u32>, transport: Transport)
    requires
        is_fresh(c),
    ensures
        ({
            let (resp, sessions) = set_up(cseq, c.sessions, transport);
            let client = RegistrationView {
                id: numbered_id(c.sessions.next),
                client_id: ClientId(hub.next_client_id),
                waiting: true,
                transport,
            };
            let next = ConnectionView { sessions, ..c };
            after_setup(next, hub, resp) == if transport is Udp {
                Outcome {
                    step: StepView::Bind(transport->server_rtp),
                    connection: ConnectionView { pending: Some((client, resp)), ..next },
                    hub: hub.with_client(),
                }
            } else {
                Outcome {
                    step: StepView::Reply(response_bytes(resp), Method::Setup, 200),
                    connection: ConnectionView { clients: c.clients.push(client), ..next },
                    hub: hub.with_client(),
                }
            }
        }),
{
    let (resp, sessions) = set_up(cseq, c.sessions, transport);
    let id = numbered_id(c.sessions.next);
    reveal_strlit(";timeout=");
    let rest = ";timeout="@ + decimal(SESSION_TIMEOUT_SECS as nat);
    assert(resp.session->0 =~= id + rest);
    lemma_given_id(c.sessions.next, rest);
    lemma_session_found(c, id, 0);
    lemma_added_session(c.sessions.sessions, SessionView { id, transport, playing: false }, 0);
    lemma_index(c.clients, id, 0);
}

/// Whether the next session's id is not in use, and no port is still to be bound.
pub open spec fn is_fresh(c: ConnectionView) -> bool {
    &&& c.pending is None
    &&& !has_session(c, numbered_id(c.sessions.next))
    &&& forall|i: int| 0 <= i < c.clients.len() ==> (#[trigger] c.clients[i]).id != numbered_id(c.sessions.next)
}

/// What a connection owes the hub when it goes from `c` to `d` and the hub from `hub` to `after`:
/// every client that it had is still its own or registered no more, every client that is newly
/// registered is its own, and nobody else's client was let go.
pub open spec fn accounts_for_clients(c: ConnectionView, hub: HubView, d: ConnectionView, after: HubView) -> bool {
    &&& forall|id: ClientId| #[trigger]
        has_client(c, id) ==> has_client(d, id) || !is_registered(after.channels, id)
    &&& forall|id: ClientId| #[trigger]
        is_registered(after.channels, id) && !is_registered(hub.channels, id) ==> has_client(d, id)
    &&& forall|id: ClientId|
        #![trigger is_registered(hub.channels, id)]
        is_registered(hub.channels, id) && !has_client(c, id) ==> is_registered(after.channels, id)
}

proof fn lemma_client_added(c: ConnectionView, hub: HubView, d: ConnectionView)
    requires
        all_clients(d).len() == all_clients(c).len() + 1,
        all_clients(d).drop_last() == all_clients(c),
        all_clients(d).last().client_id == ClientId(hub.next_client_id),
    ensures
        accounts_for_clients(c, hub, d, hub.with_client()),
{
    law_joining_client_is_registered(hub);
    let new = ClientId(hub.next_client_id);
    assert(all_clients(d)[all_clients(c).len() as int].client_id == new);
    assert forall|id: ClientId| #[trigger] has_client(c, id) implies has_client(d, id) by {
        let i = choose|i: int| 0 <= i < all_clients(c).len() && (#[trigger] all_clients(c)[i]).client_id == id;
        assert(all_clients(d)[i] == all_clients(d).drop_last()[i]);
    }
    assert forall|id: ClientId|
        #![trigger is_registered(hub.channels, id)]
        is_registered(hub.channels, id) && !has_client(c, id) implies is_registered(hub.with_client().channels, id) by {
        if id == new {
        } else {
        }
    }
}

proof fn lemma_client_removed(c: ConnectionView, hub: HubView, d: ConnectionView, k: int)
    requires
        is_in_order(hub),
        0 <= k < all_clients(c).len(),
        all_clients(d) == all_clients(c).remove(k),
    ensures
        accounts_for_clients(
            c,
            hub,
            d,
            HubView { channels: freed(hub.channels, all_clients(c)[k]), ..hub },
        ),
{
    let client = all_clients(c)[k];
    lemma_freed(hub, client);
    lemma_freed_keeps(hub, client);
    assert(has_client(c, client.client_id));
    assert forall|id: ClientId| #[trigger] has_client(c, id) implies has_client(d, id) || !is_registered(
        freed(hub.channels, client),
        id,
    ) by {
        if id != client.client_id {
            let i = choose|i: int| 0 <= i < all_clients(c).len() && (#[trigger] all_clients(c)[i]).client_id == id;
            let j = if i < k { i } else { i - 1 };
            assert(all_clients(d)[j] == all_clients(c)[i]);
        }
    }
}

proof fn lemma_clients_kept(c: ConnectionView, hub: HubView, d: ConnectionView)
    requires
        all_clients(d).len() == all_clients(c).len(),
        forall|i: int|
            0 <= i < all_clients(c).len() ==> (#[trigger] all_clients(d)[i]).client_id == all_clients(c)[i].client_id,
    ensures
        accounts_for_clients(c, hub, d, hub),
{
    assert forall|id: ClientId| #[trigger] has_client(c, id) implies has_client(d, id) by {
        let i = choose|i: int| 0 <= i < all_clients(c).len() && (#[trigger] all_clients(c)[i]).client_id == id;
        assert(all_clients(d)[i].client_id == id);
    }
}

/// No client of the hub is lost: whatever bytes a connection has, after its next request every client
/// that the connection had is still its own or is registered no more, every client that is newly
/// registered is its own, and no other connection's client was let go.
pub proof fn law_no_client_is_lost(
    c: ConnectionView,
    hub: HubView,
    server_ip: Seq<char>,
    fps: Option<Seq<char>>,
    server_rtp: u16,
)
    requires
        is_in_order(hub),
        is_fresh(c),
    ensures
        ({
            let out = after_next(c, hub, server_ip, fps, server_rtp);
            accounts_for_clients(c, hub, out.connection, out.hub)
        }),
{
    let out = after_next(c, hub, server_ip, fps, server_rtp);
    match parsed(c.buf) {
        Parsed::Request(req, len) => {
            let (resp, sessions) = served(req, c.sessions, server_ip, hub.codec, fps, server_rtp);
            let cut = ConnectionView { buf: c.buf.skip(len), ..c };
            if req.method == Method::Setup && resp.status == 200 {
                let transport = chosen(req.transport, server_rtp)->0;
                assert(has_session(cut, numbered_id(c.sessions.next)) == has_session(c, numbered_id(c.sessions.next)));
                lemma_new_session(cut, hub, req.cseq, transport);
                assert(all_clients(out.connection).drop_last() =~= all_clients(c));
                lemma_client_added(c, hub, out.connection);
            } else if req.method == Method::Teardown && resp.status == 200 && registration_index(
                c.clients,
                req.session->0,
                0,
            ) is Some {
                lemma_index(c.clients, req.session->0, 0);
                lemma_client_removed(c, hub, out.connection, registration_index(c.clients, req.session->0, 0)->0);
            } else {
                if req.method == Method::Play && req.session is Some {
                    lemma_index(c.clients, req.session->0, 0);
                }
                lemma_clients_kept(c, hub, out.connection);
            }
        },
        _ => {
            lemma_clients_kept(c, hub, out.connection);
        },
    }
}

/// No client of the hub is lost when a port was bound or could not be: where it could not, the client
/// that waited for it is registered no more.
pub proof fn law_binding_loses_no_client(c: ConnectionView, hub: HubView, bound: bool)
    requires
        is_in_order(hub),
        c.pending matches Some((client, _)) ==> forall|i: int|
            0 <= i < c.clients.len() ==> (#[trigger] c.clients[i]).id != client.id,
    ensures
        ({
            let out = after_binding(c, hub, bound);
            accounts_for_clients(c, hub, out.connection, out.hub)
        }),
        !bound ==> (c.pending matches Some((client, _)) ==> !is_registered(
            after_binding(c, hub, bound).hub.channels,
            client.client_id,
        )),
        after_binding(c, hub, bound).connection.pending is None,
{
    let out = after_binding(c, hub, bound);
    match c.pending {
        None => {
            lemma_clients_kept(c, hub, out.connection);
        },
        Some((client, resp)) => {
            if bound {
                lemma_index(c.clients, client.id, 0);
                assert(registered(c.clients, client) == c.clients.push(client));
                lemma_clients_kept(c, hub, out.connection);
            } else {
                assert(all_clients(c).remove(c.clients.len() as int) =~= c.clients);
                lemma_client_removed(c, hub, out.connection, c.clients.len() as int);
                lemma_freed(hub, client);
            }
        },
    }
}

/// A session is played with its own client: `PLAY` of a session whose client's frames nobody reads
/// yet starts that client's frames on the transport that was agreed, and marks the session as
/// playing. Without a session of that id it is answered with 454.
pub proof fn law_play_starts_the_sessions_client(
    c: ConnectionView,
    hub: HubView,
    req: RequestView,
    len: int,
    server_ip: Seq<char>,
    fps: Option<Seq<char>>,
    server_rtp: u16,
    id: Seq<char>,
    k: int,
)
    requires
        req.method == Method::Play,
        req.session == Some(id),
        0 <= k < c.clients.len(),
        c.clients[k].id == id,
        forall|j: int| 0 <= j < k ==> (#[trigger] c.clients[j]).id != id,
    ensures
        ({
            let out = after_request(c, hub, req, len, server_ip, fps, server_rtp);
            &&& out.hub == hub
            &&& !has_session(c, id) ==> (out.step matches StepView::Reply(_, _, status) && status == 454)
            &&& has_session(c, id) ==> exists|i: int|
                0 <= i < out.connection.sessions.sessions.len() && (
                #[trigger] out.connection.sessions.sessions[i]).id == id && out.connection.sessions.sessions[i].playing
            &&& has_session(c, id) && c.clients[k].waiting ==> {
                &&& out.step matches StepView::Play(_, client, transport) && client == c.clients[k].client_id
                    && transport == c.clients[k].transport
                &&& out.connection.clients.len() == c.clients.len()
                &&& !out.connection.clients[k].waiting
                &&& out.connection.clients[k].client_id == c.clients[k].client_id
            }
            &&& has_session(c, id) && !c.clients[k].waiting ==> (out.step matches StepView::Reply(_, _, status)
                && status == 200)
        }),
{
    lemma_session_found(c, id, 0);
    lemma_client_found(c.clients, id, 0, k);
    if has_session(c, id) {
        let i = session_index(c.sessions.sessions, id, 0)->0;
        let out = after_request(c, hub, req, len, server_ip, fps, server_rtp);
        assert(out.connection.sessions.sessions[i].playing);
    }
}

/// How each request is answered: with the number of the request, and with 200 where it can be
/// served. `OPTIONS` and `GET_PARAMETER` always can; `DESCRIBE` once the codec is known, else 503;
/// `PLAY` and `TEARDOWN` where their session exists, else 454; `SETUP` with an answer of 200 or 461;
/// any other is answered with 501. Only `SETUP`, `PLAY` and `TEARDOWN` change sessions, and only when
/// they are answered with 200.
pub proof fn law_statuses(
    req: RequestView,
    s: SessionsView,
    server_ip: Seq<char>,
    codec: Option<CodecView>,
    fps: Option<Seq<char>>,
    server_rtp: u16,
)
    ensures
        ({
            let (resp, after) = served(req, s, server_ip, codec, fps, server_rtp);
            let known = req.session is Some && exists|i: int|
                0 <= i < s.sessions.len() && (#[trigger] s.sessions[i]).id == req.session->0;
            &&& resp.cseq == req.cseq
            &&& resp.status != 200 ==> after == s && resp.body.len() == 0 && resp.session is None
            &&& req.method == Method::Options ==> resp.status == 200 && after == s
            &&& req.method == Method::GetParameter ==> resp.status == 200 && after == s
            &&& req.method == Method::Unknown ==> resp.status == 501
            &&& req.method == Method::Describe ==> resp.status == (if codec is Some { 200int } else { 503 }) && after == s
            &&& req.method == Method::Setup ==> resp.status == 200 || resp.status == 461
            &&& req.method == Method::Setup && resp.status == 200 ==> after.sessions.len() == s.sessions.len() + 1
                && after.sessions.drop_last() == s.sessions && !after.sessions.last().playing
            &&& req.method == Method::Play ==> resp.status == (if known { 200int } else { 454 })
            &&& req.method == Method::Play && known ==> resp.session == req.session && after.sessions.len()
                == s.sessions.len()
            &&& req.method == Method::Teardown ==> resp.status == (if known { 200int } else { 454 })
            &&& req.method == Method::Teardown && known ==> after.sessions.len() == s.sessions.len() - 1
        }),
{
    if req.session is Some {
        let c = ConnectionView { buf: Seq::empty(), sessions: s, clients: Seq::empty(), pending: None };
        lemma_session_found(c, req.session->0, 0);
    }
    let (resp, after) = served(req, s, server_ip, codec, fps, server_rtp);
    if req.method == Method::Setup && resp.status == 200 {
        assert(after.sessions.drop_last() =~= s.sessions);
    }
}

/// Two numbers with a dash between them are read as the two numbers.
pub(crate) proof fn lemma_pair(a: nat, b: nat, max: nat)
    requires
        a <= max,
        b <= max,
    ensures
        number_pair(decimal(a) + seq!['-'] + decimal(b), max) == Some((a, b)),
        lacks(decimal(a) + seq!['-'] + decimal(b), ';'),
        lacks(decimal(a) + seq!['-'] + decimal(b), ','),
        !white_space((decimal(a) + seq!['-'] + decimal(b)).last()),
{
    lemma_numeral(a, max, '-');
    lemma_numeral(b, max, '-');
    lemma_numeral(a, max, ';');
    lemma_numeral(b, max, ';');
    lemma_numeral(a, max, ',');
    lemma_numeral(b, max, ',');
    lemma_first_piece(decimal(a), '-', decimal(b));
    lemma_one_piece(decimal(b), '-');
    let s = decimal(a) + seq!['-'] + decimal(b);
    law_decimal_reads_back(b);
    assert(s.last() == decimal(b)[decimal(b).len() - 1]);
    assert(is_digit(decimal(b)[decimal(b).len() - 1]));
}

/// An offer of three parts, the last of which gives two numbers.
pub(crate) proof fn lemma_offer(protocol: Seq<char>, name: Seq<char>, value: Seq<char>)
    requires
        lacks(protocol, ';'),
        lacks(name, ';'),
        lacks(value, ';'),
        protocol.len() > 0,
        !white_space(protocol[0]),
        !white_space(protocol.last()),
        name.len() > 0,
        name[0] != 'u',
        !white_space(name[0]),
        value.len() > 0,
        !white_space(value.last()),
    ensures
        ({
            let parts = pieces(protocol + ";unicast;"@ + name + value, seq![';']);
            &&& trimmed(parts[0]) == protocol
            &&& parameter(parts, name, 1) == Some(value)
        }),
{
    reveal_strlit(";unicast;");
    reveal_strlit("unicast");
    let unicast = "unicast"@;
    let last = name + value;
    let s = protocol + ";unicast;"@ + name + value;
    assert(s =~= protocol + seq![';'] + (unicast + seq![';'] + last));
    lemma_first_piece(protocol, ';', unicast + seq![';'] + last);
    assert(lacks(unicast, ';'));
    lemma_first_piece(unicast, ';', last);
    lemma_lacks_sum(name, value, ';');
    lemma_one_piece(last, ';');
    let parts = pieces(s, seq![';']);
    assert(parts =~= seq![protocol, unicast, last]);
    lemma_trimmed_already(protocol);
    lemma_trimmed_already(unicast);
    assert(last[0] == name[0] && last.last() == value.last());
    lemma_trimmed_already(last);
    reveal_with_fuel(parameter, 3);
    assert(unicast[0] == 'u');
    if begins_with(unicast, name) {
        assert(unicast.take(name.len() as int)[0] == name[0]);
    }
    assert(last.take(name.len() as int) =~= name);
    assert(last.skip(name.len() as int) =~= value);
}

/// A client gets the transport that it asks for. Over the connection that is the pair of channels it
/// names, or 0 and 1 where it names none; for datagrams the pair of ports it names, with the server's
/// port and the one behind it.
pub proof fn law_transport_is_what_was_asked_for(a: u16, b: u16, server_rtp: u16)
    requires
        server_rtp < u16::MAX,
    ensures
        a <= 255 && b <= 255 ==> chosen(
            Some("RTP/AVP/TCP"@ + ";unicast;"@ + "interleaved="@ + (decimal(a as nat) + seq!['-'] + decimal(b as nat))),
            server_rtp,
        ) == Some(Transport::Interleaved { rtp_ch: a as u8, rtcp_ch: b as u8 }),
        chosen(Some("RTP/AVP/TCP"@), server_rtp) == Some(Transport::Interleaved { rtp_ch: 0, rtcp_ch: 1 }),
        chosen(
            Some("RTP/AVP"@ + ";unicast;"@ + "client_port="@ + (decimal(a as nat) + seq!['-'] + decimal(b as nat))),
            server_rtp,
        ) == Some(
            Transport::Udp { client_rtp: a, client_rtcp: b, server_rtp, server_rtcp: (server_rtp + 1) as u16 },
        ),
        chosen(
            Some("RTP/AVP/UDP"@ + ";unicast;"@ + "client_port="@ + (decimal(a as nat) + seq!['-'] + decimal(b as nat))),
            server_rtp,
        ) == Some(
            Transport::Udp { client_rtp: a, client_rtcp: b, server_rtp, server_rtcp: (server_rtp + 1) as u16 },
        ),
        chosen(None, server_rtp) is None,
{
    lemma_numbered_offers(a, b, server_rtp);
    lemma_plain_offer(server_rtp);
}

proof fn lemma_plain_offer(server_rtp: u16)
    ensures
        chosen(Some("RTP/AVP/TCP"@), server_rtp) == Some(Transport::Interleaved { rtp_ch: 0, rtcp_ch: 1 }),
{
    reveal_strlit("RTP/AVP/TCP");
    assert(lacks("RTP/AVP/TCP"@, ',') && lacks("RTP/AVP/TCP"@, ';'));
    lemma_one_piece("RTP/AVP/TCP"@, ';');
    lemma_trimmed_already("RTP/AVP/TCP"@);
    lemma_only_offer("RTP/AVP/TCP"@, server_rtp);
}

/// What the words of an offer are made of.
pub(crate) proof fn lemma_offer_words()
    ensures
        lacks("RTP/AVP/TCP"@, ';') && lacks("RTP/AVP/TCP"@, ','),
        lacks("RTP/AVP/UDP"@, ';') && lacks("RTP/AVP/UDP"@, ','),
        lacks("RTP/AVP"@, ';') && lacks("RTP/AVP"@, ','),
        lacks("interleaved="@, ';') && lacks("interleaved="@, ','),
        lacks("client_port="@, ';') && lacks("client_port="@, ','),
        lacks(";unicast;"@, ','),
        "RTP/AVP/TCP"@.len() > 0 && "RTP/AVP/TCP"@[0] == 'R' && "RTP/AVP/TCP"@.last() == 'P',
        "RTP/AVP/UDP"@.len() > 0 && "RTP/AVP/UDP"@[0] == 'R' && "RTP/AVP/UDP"@.last() == 'P',
        "RTP/AVP"@.len() > 0 && "RTP/AVP"@[0] == 'R' && "RTP/AVP"@.last() == 'P',
        "interleaved="@.len() > 0 && "interleaved="@[0] == 'i',
        "client_port="@.len() > 0 && "client_port="@[0] == 'c',
{
    reveal_strlit("RTP/AVP/TCP");
    reveal_strlit("RTP/AVP");
    reveal_strlit("RTP/AVP/UDP");
    reveal_strlit(";unicast;");
    reveal_strlit("interleaved=");
    reveal_strlit("client_port=");
}

/// An offer without a comma is one offer.
proof fn lemma_offer_is_one(protocol: Seq<char>, name: Seq<char>, value: Seq<char>, server_rtp: u16)
    requires
        lacks(protocol, ','),
        lacks(name, ','),
        lacks(value, ','),
    ensures
        chosen(Some(protocol + ";unicast;"@ + name + value), server_rtp) == accepted(
            protocol + ";unicast;"@ + name + value,
            server_rtp,
        ),
{
    lemma_offer_words();
    lemma_lacks_sum(protocol, ";unicast;"@, ',');
    lemma_lacks_sum(protocol + ";unicast;"@, name, ',');
    lemma_lacks_sum(protocol + ";unicast;"@ + name, value, ',');
    lemma_only_offer(protocol + ";unicast;"@ + name + value, server_rtp);
}

proof fn lemma_numbered_offers(a: u16, b: u16, server_rtp: u16)
    requires
        server_rtp < u16::MAX,
    ensures
        ({
            let value = decimal(a as nat) + seq!['-'] + decimal(b as nat);
            let udp = Transport::Udp {
                client_rtp: a,
                client_rtcp: b,
                server_rtp,
                server_rtcp: (server_rtp + 1) as u16,
            };
            &&& a <= 255 && b <= 255 ==> chosen(
                Some("RTP/AVP/TCP"@ + ";unicast;"@ + "interleaved="@ + value),
                server_rtp,
            ) == Some(Transport::Interleaved { rtp_ch: a as u8, rtcp_ch: b as u8 })
            &&& chosen(Some("RTP/AVP"@ + ";unicast;"@ + "client_port="@ + value), server_rtp) == Some(udp)
            &&& chosen(Some("RTP/AVP/UDP"@ + ";unicast;"@ + "client_port="@ + value), server_rtp) == Some(udp)
        }),
{
    let value = decimal(a as nat) + seq!['-'] + decimal(b as nat);
    law_decimal_reads_back(a as nat);
    lemma_pair(a as nat, b as nat, 65535);
    lemma_protocols_differ();
    lemma_offer_words();
    if a <= 255 && b <= 255 {
        lemma_pair(a as nat, b as nat, 255);
        lemma_offer("RTP/AVP/TCP"@, "interleaved="@, value);
        lemma_offer_is_one("RTP/AVP/TCP"@, "interleaved="@, value, server_rtp);
    }
    lemma_offer("RTP/AVP"@, "client_port="@, value);
    lemma_offer("RTP/AVP/UDP"@, "client_port="@, value);
    lemma_offer_is_one("RTP/AVP"@, "client_port="@, value, server_rtp);
    lemma_offer_is_one("RTP/AVP/UDP"@, "client_port="@, value, server_rtp);
}

/// One offer is the one that counts.
proof fn lemma_only_offer(offer: Seq<char>, server_rtp: u16)
    requires
        lacks(offer, ','),
    ensures
        chosen(Some(offer), server_rtp) == accepted(offer, server_rtp),
{
    lemma_one_piece(offer, ',');
    reveal_with_fuel(first_accepted, 3);
}

proof fn lemma_protocols_differ()
    ensures
        "RTP/AVP"@ != "RTP/AVP/TCP"@,
        "RTP/AVP/UDP"@ != "RTP/AVP/TCP"@,
{
    reveal_strlit("RTP/AVP/TCP");
    reveal_strlit("RTP/AVP");
    reveal_strlit("RTP/AVP/UDP");
    assert("RTP/AVP"@.len() == 7);
    assert("RTP/AVP/TCP"@.len() == 11);
    assert("RTP/AVP/UDP"@[8] == 'U');
    assert("RTP/AVP/TCP"@[8] == 'T');
}

/// `SETUP` gives a session a client of its own: the answer is 200 and names the session with its
/// time-out of 60 seconds, the session has the transport that was chosen, and the hub has one client
/// more, which nobody reads yet. Datagrams are answered only once the port is bound.
pub proof fn law_setup_gives_a_client(
    c: ConnectionView,
    hub: HubView,
    req: RequestView,
    len: int,
    server_ip: Seq<char>,
    fps: Option<Seq<char>>,
    server_rtp: u16,
    transport: Transport,
)
    requires
        is_fresh(c),
        req.method == Method::Setup,
        chosen(req.transport, server_rtp) == Some(transport),
    ensures
        ({
            let out = after_request(c, hub, req, len, server_ip, fps, server_rtp);
            let client = ClientId(hub.next_client_id);
            let id = out.connection.sessions.sessions.last().id;
            let new = all_clients(out.connection).last();
            &&& out.hub == hub.with_client()
            &&& is_registered(out.hub.channels, client)
            &&& all_clients(out.connection).len() == c.clients.len() + 1
            &&& new.client_id == client && new.waiting && new.id == id && new.transport == transport
            &&& out.connection.sessions.sessions.len() == c.sessions.sessions.len() + 1
            &&& out.connection.sessions.sessions.last().transport == transport
            &&& transport is Interleaved ==> (out.step matches StepView::Reply(_, method, status) && method
                == Method::Setup && status == 200)
            &&& transport is Udp ==> out.step == StepView::Bind(transport->server_rtp) && out.connection.pending is Some
            &&& served(req, c.sessions, server_ip, hub.codec, fps, server_rtp).0.session == Some(id + ";timeout=60"@)
        }),
{
    let cut = ConnectionView { buf: c.buf.skip(len), ..c };
    assert(has_session(cut, numbered_id(c.sessions.next)) == has_session(c, numbered_id(c.sessions.next)));
    lemma_new_session(cut, hub, req.cseq, transport);
    law_joining_client_is_registered(hub);
    reveal_strlit(";timeout=60");
    reveal_strlit(";timeout=");
    reveal_with_fuel(decimal, 3);
    assert(";timeout="@ + decimal(60) =~= ";timeout=60"@);
    let id = numbered_id(c.sessions.next);
    assert(id + ";timeout="@ + decimal(60) =~= id + (";timeout="@ + decimal(60)));
}

} // verus!
