//! Laws of the web connection: what is taken from it, when it is answered, and which service an operation
//! belongs to.

use crate::http::terminator_from;
use crate::onvif_responses::OnvifConfig;
use crate::onvif_server::{
    answer, arrived, asked_for, http_response, known_action, resolve_action, route, strip_quotes, Arrived,
    ConnectionStep, KnownAction, OnvifConnection, Resolved,
};
use crate::operation_laws::law_operations_have_addresses;
use crate::stream_state::StreamState;
use crate::text::text_in;
use vstd::prelude::*;
use vstd::utf8::valid_utf8;

verus! {

/// An operation belongs to the service under whose address its own stands, and is called what stands
/// behind that.
pub proof fn law_operations_belong_to_their_service(i: usize, r: KnownAction)
    requires
        i < 10,
        call_ensures(known_action, (i,), r),
    ensures
        r.resolved.service is Device ==> r.uri@ == "http://www.onvif.org/ver10/device/wsdl/"@ + r.resolved.op@,
        r.resolved.service is Media ==> r.uri@ == "http://www.onvif.org/ver10/media/wsdl/"@ + r.resolved.op@,
{
    law_operations_have_addresses(i as int);
}

/// Quotes round a value are taken off, one at each end; a value without them stays.
pub proof fn law_quotes_are_taken_off(value: &str, inner: Seq<char>, r: String)
    requires
        call_ensures(strip_quotes, (value,), r),
    ensures
        value@ == seq!['"'] + inner + seq!['"'] ==> r@ == inner,
        value@.len() > 0 && value@[0] != '"' && value@.last() != '"' ==> r@ == value@,
        value@.len() == 0 ==> r@.len() == 0,
{
    if value@ == seq!['"'] + inner + seq!['"'] {
        assert(value@.skip(1).drop_last() =~= inner);
    }
}

/// What is resolved from a request is what is answered: a request that resolves to nothing is answered as
/// any other that does.
pub proof fn law_every_request_is_answered(
    soap_action: &str,
    body: &str,
    cfg: &OnvifConfig,
    state: &StreamState,
    now_secs: i64,
    resolved: Option<Resolved>,
    r: (u16, String),
)
    requires
        now_secs >= 0,
        call_ensures(resolve_action, (soap_action, body), resolved),
        call_ensures(route, (soap_action, body, cfg, state, now_secs), r),
    ensures
        r.0 == 200,
        resolved is None ==> r.1@ == crate::onvif_responses::fault(),
{
}

/// Bytes are taken in order until a request has arrived; at more than 65536 of them, or at headers that are
/// no text, the connection is closed. Nothing is answered before the headers have ended.
pub proof fn law_web_connection_takes_what_comes(
    c: &mut OnvifConnection,
    chunk: &[u8],
    cfg: &OnvifConfig,
    state: &StreamState,
    now_secs: i64,
    r: ConnectionStep,
    headers: bool,
)
    requires
        now_secs >= 0,
        call_ensures(OnvifConnection::on_bytes, (c, chunk, cfg, state, now_secs), r),
        call_ensures(OnvifConnection::has_headers, (&*final(c),), headers),
    ensures
        final(c)@ == old(c)@ + chunk@,
        r is Close <==> old(c)@.len() + chunk@.len() > 65536,
        r !is Close && !headers ==> r is Read,
        r is Reply ==> headers,
        r !is Close && headers ==> (r is CloseBadHeaders <==> !valid_utf8(
            final(c)@.take(terminator_from(final(c)@, 0)->0),
        )),
{
}

/// A request is answered once, with what its action and its body ask for.
pub proof fn law_request_is_answered(
    c: &mut OnvifConnection,
    chunk: &[u8],
    cfg: &OnvifConfig,
    state: &StreamState,
    now_secs: i64,
    r: ConnectionStep,
    action: Seq<char>,
    body: Seq<u8>,
)
    requires
        now_secs >= 0,
        arrived(old(c)@ + chunk@) == Arrived::All(action, body),
        call_ensures(OnvifConnection::on_bytes, (c, chunk, cfg, state, now_secs), r),
    ensures
        r matches ConnectionStep::Reply(bytes) && bytes@ == http_response(
            200,
            answer(asked_for(action, text_in(body)), cfg@, state@, now_secs as int),
        ),
{
}

} // verus!
