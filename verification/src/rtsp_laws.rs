//! What holds of RTSP connections as a whole.

use crate::hub_laws::{
    has_own_ids, is_bounded, law_hub_stays_orderly, law_removed_client_is_gone,
};
use crate::rtsp_protocol::{
    id_in, numbered_id, session_index, set_up, ResponseView, SessionView, Transport,
    SESSION_TIMEOUT_SECS,
};
use crate::rtsp_server::{
    after_binding, after_play, after_setup, all_clients, all_freed, freed, registration_index, ConnectionView,
    RegistrationView,
};
use crate::stream_state::{all_hung_up, all_released, is_registered, kept_after, ChannelView, ClientId, HubView};
use crate::text::{
    all_digits, decimal, digits_value, is_digit, law_decimal_reads_back, position, trim_end, trim_start, white_space,
    zeros,
};
use vstd::prelude::*;

verus! {

/// Leading zeros do not count.
pub(crate) proof fn lemma_padding(k: int, s: Seq<char>)
    requires
        0 <= k,
        all_digits(s),
    ensures
        digits_value(zeros(k) + s) == digits_value(s),
        all_digits(zeros(k) + s),
    decreases s.len(),
{
    assert(all_digits(zeros(k) + s)) by {
        assert forall|i: int| 0 <= i < (zeros(k) + s).len() implies is_digit(
            #[trigger] (zeros(k) + s)[i],
        ) by {
            if i >= k {
                assert((zeros(k) + s)[i] == s[i - k]);
            }
        }
    }
    if s.len() == 0 {
        assert(zeros(k) + s =~= zeros(k));
        lemma_zeros(k);
    } else {
        assert forall|i: int| 0 <= i < s.drop_last().len() implies is_digit(
            #[trigger] s.drop_last()[i],
        ) by {
            assert(s.drop_last()[i] == s[i]);
        }
        lemma_padding(k, s.drop_last());
        assert((zeros(k) + s).drop_last() =~= zeros(k) + s.drop_last());
    }
}

proof fn lemma_zeros(k: int)
    requires
        0 <= k,
    ensures
        digits_value(zeros(k)) == 0,
    decreases k,
{
    if k > 0 {
        lemma_zeros(k - 1);
        assert(zeros(k).drop_last() =~= zeros(k - 1));
    }
}

/// An id is the numeral of the session's number.
proof fn lemma_id_value(n: u64)
    ensures
        digits_value(numbered_id(n)) == n,
        all_digits(numbered_id(n)),
        numbered_id(n).len() > 0,
{
    law_decimal_reads_back(n as nat);
    let d = decimal(n as nat);
    if d.len() < 8 {
        lemma_padding(8 - d.len(), d);
    }
}

/// No two sessions of a connection have the same id, as long as their numbers last.
pub proof fn law_session_ids_differ(n: u64, m: u64)
    requires
        n != m,
    ensures
        numbered_id(n) != numbered_id(m),
{
    lemma_id_value(n);
    lemma_id_value(m);
}

/// Letting a client go, and giving up its queue if nobody reads it, keeps a hub orderly and leaves
/// the client without deliveries.
pub(crate) proof fn lemma_freed(h: HubView, client: RegistrationView)
    requires
        is_bounded(h.channels),
        has_own_ids(h.channels, h.next_client_id),
    ensures
        is_bounded(freed(h.channels, client)),
        has_own_ids(freed(h.channels, client), h.next_client_id),
        !is_registered(freed(h.channels, client), client.client_id),
        forall|other: ClientId|
            !is_registered(h.channels, other) ==> !#[trigger] is_registered(freed(h.channels, client), other),
{
    let id = client.client_id;
    law_hub_stays_orderly(h, arbitrary(), id);
    law_removed_client_is_gone(h, id);
    let released = HubView { channels: all_released(h.channels, id), ..h };
    assert forall|other: ClientId| !is_registered(h.channels, other) implies !#[trigger] is_registered(
        released.channels,
        other,
    ) by {
        if other != id {
            assert(is_registered(all_released(h.channels, id), other) == is_registered(h.channels, other));
        }
    }
    if client.waiting {
        law_hub_stays_orderly(released, arbitrary(), id);
        assert forall|other: ClientId| !is_registered(released.channels, other) implies !#[trigger] is_registered(
            freed(h.channels, client),
            other,
        ) by {
            lemma_hanging_up_registers_nobody(released.channels, id, other);
        }
    }
}

/// A client that stops reading registers nobody.
proof fn lemma_hanging_up_registers_nobody(channels: Seq<ChannelView>, id: ClientId, other: ClientId)
    requires
        !is_registered(channels, other),
    ensures
        !is_registered(all_hung_up(channels, id), other),
    decreases channels.len(),
{
    if channels.len() > 0 {
        let head = channels.drop_last();
        let change = |c: ChannelView| c.hung_up(id);
        assert forall|i: int| 0 <= i < head.len() implies !((#[trigger] head[i]).id == other && head[i].registered) by {
            assert(head[i] == channels[i]);
        }
        lemma_hanging_up_registers_nobody(head, id, other);
        let before = kept_after(head, change);
        let after = kept_after(channels, change);
        assert(channels[channels.len() - 1] == channels.last());
        assert forall|i: int| 0 <= i < after.len() implies !((#[trigger] after[i]).id == other && after[i].registered) by {
            if i < before.len() {
                assert(after[i] == before[i]);
            } else {
                assert(after[i] == channels.last().hung_up(id));
            }
        }
    }
}

/// When a connection has ended, the hub delivers nothing more to any of its clients.
pub proof fn law_ended_connection_has_no_clients(h: HubView, c: ConnectionView)
    requires
        is_bounded(h.channels),
        has_own_ids(h.channels, h.next_client_id),
    ensures
        forall|k: int|
            0 <= k < all_clients(c).len() ==> !is_registered(
                all_freed(h.channels, all_clients(c)),
                (#[trigger] all_clients(c)[k]).client_id,
            ),
{
    lemma_all_freed(h, all_clients(c));
}

proof fn lemma_all_freed(h: HubView, clients: Seq<RegistrationView>)
    requires
        is_bounded(h.channels),
        has_own_ids(h.channels, h.next_client_id),
    ensures
        is_bounded(all_freed(h.channels, clients)),
        has_own_ids(all_freed(h.channels, clients), h.next_client_id),
        forall|k: int|
            0 <= k < clients.len() ==> !is_registered(
                all_freed(h.channels, clients),
                (#[trigger] clients[k]).client_id,
            ),
    decreases clients.len(),
{
    if clients.len() > 0 {
        let head = clients.drop_last();
        lemma_all_freed(h, head);
        let before = HubView { channels: all_freed(h.channels, head), ..h };
        lemma_freed(before, clients.last());
        assert forall|k: int| 0 <= k < clients.len() implies !is_registered(
            all_freed(h.channels, clients),
            (#[trigger] clients[k]).client_id,
        ) by {
            if k < head.len() {
                assert(head[k] == clients[k]);
                assert(!is_registered(before.channels, head[k].client_id));
            } else {
                assert(clients[k] == clients.last());
            }
        }
    }
}

/// A session's frames are handed out once: to ask for them again starts nothing.
pub proof fn law_playing_starts_once(
    c: ConnectionView,
    hub: HubView,
    id: Seq<char>,
    resp: ResponseView,
    again: ResponseView,
)
    requires
        after_play(c, hub, Some(id), resp).step is Play,
    ensures
        after_play(after_play(c, hub, Some(id), resp).connection, hub, Some(id), again).step is Reply,
{
    let i = registration_index(c.clients, id, 0)->0;
    lemma_index(c.clients, id, 0);
    let played = c.clients.update(i, RegistrationView { waiting: false, ..c.clients[i] });
    lemma_same_index(c.clients, played, id, 0, i);
}

/// What a search finds.
pub(crate) proof fn lemma_index(v: Seq<RegistrationView>, id: Seq<char>, from: int)
    requires
        0 <= from,
    ensures
        registration_index(v, id, from) matches Some(i) ==> from <= i < v.len() && v[i].id == id,
    decreases v.len() - from,
{
    if from < v.len() && v[from].id != id {
        lemma_index(v, id, from + 1);
    }
}

/// A search goes by the ids alone.
proof fn lemma_same_index(a: Seq<RegistrationView>, b: Seq<RegistrationView>, id: Seq<char>, from: int, i: int)
    requires
        0 <= from,
        0 <= i < a.len(),
        b == a.update(i, b[i]),
        a[i].id == b[i].id,
    ensures
        registration_index(a, id, from) == registration_index(b, id, from),
    decreases a.len() - from,
{
    if from < a.len() {
        assert(a[from].id == b[from].id);
        if a[from].id != id {
            lemma_same_index(a, b, id, from + 1, i);
        }
    }
}

/// The id stands unchanged in the field that gives it out.
pub(crate) proof fn lemma_given_id(n: u64, rest: Seq<char>)
    requires
        rest.len() > 0,
        rest[0] == ';',
    ensures
        id_in(numbered_id(n) + rest) == numbered_id(n),
{
    lemma_id_value(n);
    let id = numbered_id(n);
    let value = id + rest;
    lemma_first_semicolon(id, rest);
    assert(value.take(id.len() as int) =~= id);
    assert(!white_space(id[0])) by {
        assert(is_digit(id[0]));
    }
    assert(!white_space(id.last())) by {
        assert(is_digit(id[id.len() - 1]));
    }
    assert(trim_start(id) == id);
    assert(trim_end(id) == id);
}

proof fn lemma_first_semicolon(id: Seq<char>, rest: Seq<char>)
    requires
        all_digits(id),
        rest.len() > 0,
        rest[0] == ';',
    ensures
        position(id + rest, ';') == Some(id.len() as int),
    decreases id.len(),
{
    let s = id + rest;
    if id.len() == 0 {
        assert(s =~= rest);
    } else {
        assert(s[0] == id[0]);
        assert(is_digit(id[0]));
        assert(s.skip(1) =~= id.skip(1) + rest);
        assert forall|i: int| 0 <= i < id.skip(1).len() implies is_digit(#[trigger] id.skip(1)[i]) by {
            assert(id.skip(1)[i] == id[i + 1]);
        }
        lemma_first_semicolon(id.skip(1), rest);
    }
}

/// A search that finds nothing before the end finds what was added there.
pub(crate) proof fn lemma_added_session(s: Seq<SessionView>, new: SessionView, from: int)
    requires
        0 <= from <= s.len(),
        session_index(s, new.id, from) is None,
    ensures
        session_index(s.push(new), new.id, from) == Some(s.len() as int),
    decreases s.len() - from,
{
    if from < s.len() {
        assert(s.push(new)[from] == s[from]);
        lemma_added_session(s, new, from + 1);
    }
}

/// A session whose port cannot be bound leaves nothing behind: no session, no client of the
/// connection, and no client of the hub.
pub proof fn law_failed_binding_leaves_nothing(
    before: ConnectionView,
    hub: HubView,
    cseq: Option<u32>,
    transport: Transport,
)
    requires
        transport is Udp,
        session_index(before.sessions.sessions, numbered_id(before.sessions.next), 0) is None,
        is_bounded(hub.with_client().channels),
        has_own_ids(hub.with_client().channels, hub.with_client().next_client_id),
    ensures
        ({
            let (resp, sessions) = set_up(cseq, before.sessions, transport);
            let asked = after_setup(ConnectionView { sessions, ..before }, hub, resp);
            let undone = after_binding(asked.connection, asked.hub, false);
            &&& asked.step is Bind
            &&& undone.connection.sessions.sessions == before.sessions.sessions
            &&& undone.connection.clients == before.clients
            &&& undone.connection.pending is None
            &&& !is_registered(undone.hub.channels, ClientId(hub.next_client_id))
        }),
{
    let (resp, sessions) = set_up(cseq, before.sessions, transport);
    let id = numbered_id(before.sessions.next);
    let field = resp.session->0;
    reveal_strlit(";timeout=");
    let rest = ";timeout="@ + decimal(SESSION_TIMEOUT_SECS as nat);
    assert(field =~= id + rest);
    assert(rest[0] == ';');
    lemma_given_id(before.sessions.next, rest);
    let old_sessions = before.sessions.sessions;
    let new = SessionView { id, transport, playing: false };
    lemma_added_session(old_sessions, new, 0);
    assert(sessions.sessions == old_sessions.push(new));
    assert(old_sessions.push(new).remove(old_sessions.len() as int) =~= old_sessions);
    let client = RegistrationView { id, client_id: ClientId(hub.next_client_id), waiting: true, transport };
    lemma_freed(hub.with_client(), client);
}

} // verus!
