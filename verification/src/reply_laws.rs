//! Laws of RTSP answers: what a client reads in them, and what becomes of a connection's bytes.

use crate::http::header_of;
use crate::http_laws::{
    field_line, header_block, is_field, is_line_text, law_field_is_read_under_its_name, law_unwritten_field_is_none,
    same_but_for_case, Field,
};
use crate::rtsp_protocol::{
    bare, field_lines, head_text, method_named, number_pair, parameter, parsed, reason, response_bytes, served,
    transport_text, FieldView, Method, Parsed, RequestView, ResponseView, SessionsView, Transport,
};
use crate::rtsp_pump::{interleaved, law_packets_are_drained, law_requests_are_not_drained};
use crate::rtsp_server::{after_next, refusal, ConnectionView, RtspConnection, StepView};
use crate::session_laws::{lemma_offer, lemma_offer_words, lemma_pair};
use crate::stream_state::{CodecView, HubView};
use crate::text::{contains_text, decimal, law_decimal_reads_back, law_find_from_is_first, occurs_at, pieces, position, trimmed, white_space};
use crate::text_laws::{lacks, lemma_first_piece, lemma_lacks_sum, lemma_numeral, lemma_one_piece, lemma_trimmed_already};
use vstd::prelude::*;
use vstd::utf8::encode_utf8;

verus! {

/// The transport in an answer is read back as the one that was set up: the channels, or the client's ports
/// and the server's.
pub proof fn law_transport_is_told(t: Transport)
    ensures
        ({
            let parts = pieces(transport_text(t), seq![';']);
            match t {
                Transport::Interleaved { rtp_ch, rtcp_ch } => {
                    &&& trimmed(parts[0]) == "RTP/AVP/TCP"@
                    &&& parameter(parts, "interleaved="@, 1) is Some
                    &&& number_pair(parameter(parts, "interleaved="@, 1)->0, 255) == Some(
                        (rtp_ch as nat, rtcp_ch as nat),
                    )
                },
                Transport::Udp { client_rtp, client_rtcp, server_rtp, server_rtcp } => {
                    &&& trimmed(parts[0]) == "RTP/AVP"@
                    &&& parameter(parts, "client_port="@, 1) is Some
                    &&& number_pair(parameter(parts, "client_port="@, 1)->0, 65535) == Some(
                        (client_rtp as nat, client_rtcp as nat),
                    )
                    &&& parameter(parts, "server_port="@, 1) is Some
                    &&& number_pair(parameter(parts, "server_port="@, 1)->0, 65535) == Some(
                        (server_rtp as nat, server_rtcp as nat),
                    )
                },
            }
        }),
{
    reveal_strlit("-");
    match t {
        Transport::Interleaved { rtp_ch, rtcp_ch } => {
            let value = decimal(rtp_ch as nat) + seq!['-'] + decimal(rtcp_ch as nat);
            lemma_pair(rtp_ch as nat, rtcp_ch as nat, 255);
            law_decimal_reads_back(rtp_ch as nat);
            lemma_offer_words();
            reveal_strlit("RTP/AVP/TCP;unicast;interleaved=");
            reveal_strlit("RTP/AVP/TCP");
            reveal_strlit(";unicast;");
            reveal_strlit("interleaved=");
            assert("RTP/AVP/TCP;unicast;interleaved="@ =~= "RTP/AVP/TCP"@ + ";unicast;"@ + "interleaved="@);
            assert(transport_text(t) =~= "RTP/AVP/TCP"@ + ";unicast;"@ + "interleaved="@ + value);
            lemma_offer("RTP/AVP/TCP"@, "interleaved="@, value);
        },
        Transport::Udp { client_rtp, client_rtcp, server_rtp, server_rtcp } => {
            let a = decimal(client_rtp as nat) + seq!['-'] + decimal(client_rtcp as nat);
            let b = decimal(server_rtp as nat) + seq!['-'] + decimal(server_rtcp as nat);
            lemma_pair(client_rtp as nat, client_rtcp as nat, 65535);
            lemma_pair(server_rtp as nat, server_rtcp as nat, 65535);
            law_decimal_reads_back(client_rtp as nat);
            law_decimal_reads_back(server_rtp as nat);
            reveal_strlit("RTP/AVP;unicast;client_port=");
            reveal_strlit(";server_port=");
            reveal_strlit("RTP/AVP");
            reveal_strlit("unicast");
            reveal_strlit("client_port=");
            reveal_strlit("server_port=");
            assert("RTP/AVP;unicast;client_port="@ =~= "RTP/AVP"@ + seq![';'] + "unicast"@ + seq![';']
                + "client_port="@);
            assert(";server_port="@ =~= seq![';'] + "server_port="@);
            lemma_four_parts("RTP/AVP"@, "unicast"@, "client_port="@, a, "server_port="@, b);
            assert(transport_text(t) =~= "RTP/AVP"@ + seq![';'] + ("unicast"@ + seq![';'] + (("client_port="@ + a)
                + seq![';'] + ("server_port="@ + b))));
        },
    }
}

proof fn lemma_four_parts(
    p: Seq<char>,
    u: Seq<char>,
    n1: Seq<char>,
    a: Seq<char>,
    n2: Seq<char>,
    b: Seq<char>,
)
    requires
        lacks(p, ';') && lacks(u, ';') && lacks(n1, ';') && lacks(n2, ';') && lacks(a, ';') && lacks(b, ';'),
        p.len() > 0 && u.len() > 0 && n1.len() > 0 && n2.len() > 0 && a.len() > 0 && b.len() > 0,
        !white_space(p[0]) && !white_space(p.last()),
        !white_space(u[0]) && !white_space(u.last()),
        !white_space(n1[0]) && !white_space(n2[0]),
        !white_space(a.last()) && !white_space(b.last()),
        u[0] != n1[0] && u[0] != n2[0] && n1[0] != n2[0],
    ensures
        ({
            let parts = pieces(p + seq![';'] + (u + seq![';'] + ((n1 + a) + seq![';'] + (n2 + b))), seq![';']);
            &&& trimmed(parts[0]) == p
            &&& parameter(parts, n1, 1) == Some(a)
            &&& parameter(parts, n2, 1) == Some(b)
        }),
{
    let c = n1 + a;
    let d = n2 + b;
    lemma_lacks_sum(n1, a, ';');
    lemma_lacks_sum(n2, b, ';');
    lemma_first_piece(p, ';', u + seq![';'] + (c + seq![';'] + d));
    lemma_first_piece(u, ';', c + seq![';'] + d);
    lemma_first_piece(c, ';', d);
    lemma_one_piece(d, ';');
    let parts = pieces(p + seq![';'] + (u + seq![';'] + (c + seq![';'] + d)), seq![';']);
    assert(parts =~= seq![p, u, c, d]);
    assert(c[0] == n1[0] && c.last() == a.last());
    assert(d[0] == n2[0] && d.last() == b.last());
    lemma_trimmed_already(p);
    lemma_trimmed_already(u);
    lemma_trimmed_already(c);
    lemma_trimmed_already(d);
    reveal_with_fuel(parameter, 4);
    assert(u.len() >= n1.len() ==> u.take(n1.len() as int)[0] == u[0]);
    assert(u.len() >= n2.len() ==> u.take(n2.len() as int)[0] == u[0]);
    assert(c.len() >= n2.len() ==> c.take(n2.len() as int)[0] == c[0]);
    assert(c.take(n1.len() as int) =~= n1);
    assert(c.skip(n1.len() as int) =~= a);
    assert(d.take(n2.len() as int) =~= n2);
    assert(d.skip(n2.len() as int) =~= b);
}

/// The answer to `OPTIONS` names every method that is served.
pub proof fn law_options_names_every_method(
    req: RequestView,
    s: SessionsView,
    server_ip: Seq<char>,
    codec: Option<CodecView>,
    fps: Option<Seq<char>>,
    server_rtp: u16,
    name: Seq<char>,
)
    requires
        req.method == Method::Options,
        method_named(name) != Method::Unknown,
    ensures
        ({
            let resp = served(req, s, server_ip, codec, fps, server_rtp).0;
            exists|i: int|
                0 <= i < resp.headers.len() && (#[trigger] resp.headers[i]).0 == "Public"@ && contains_text(
                    resp.headers[i].1,
                    name,
                )
        }),
{
    let list = "OPTIONS, DESCRIBE, SETUP, PLAY, TEARDOWN, GET_PARAMETER"@;
    reveal_strlit("OPTIONS, DESCRIBE, SETUP, PLAY, TEARDOWN, GET_PARAMETER");
    reveal_strlit("OPTIONS");
    reveal_strlit("DESCRIBE");
    reveal_strlit("SETUP");
    reveal_strlit("PLAY");
    reveal_strlit("TEARDOWN");
    reveal_strlit("GET_PARAMETER");
    let at: int = match method_named(name) {
        Method::Options => 0,
        Method::Describe => 9,
        Method::Setup => 19,
        Method::Play => 26,
        Method::Teardown => 32,
        _ => 42,
    };
    assert(list.subrange(at, at + name.len()) =~= name);
    assert(occurs_at(list, name, at));
    law_find_from_is_first(list, name, 0);
    let resp = served(req, s, server_ip, codec, fps, server_rtp).0;
    assert(resp.headers[0] == ("Public"@, list));
}

/// The session that `SETUP` sets up is named in the answer, and so is its transport; `PLAY` tells that it
/// starts at the beginning.
pub proof fn law_session_is_named(
    req: RequestView,
    s: SessionsView,
    server_ip: Seq<char>,
    codec: Option<CodecView>,
    fps: Option<Seq<char>>,
    server_rtp: u16,
)
    ensures
        ({
            let (resp, after) = served(req, s, server_ip, codec, fps, server_rtp);
            &&& req.method == Method::Setup && resp.status == 200 ==> resp.headers == seq![
                ("Transport"@, transport_text(after.sessions.last().transport)),
            ] && resp.session == Some(after.sessions.last().id + ";timeout="@ + decimal(60))
            &&& req.method == Method::Play && resp.status == 200 ==> resp.headers == seq![("Range"@, "npt=0.000-"@)]
            &&& req.method == Method::Teardown || req.method == Method::GetParameter ==> resp.headers.len() == 0
                && resp.body.len() == 0
        }),
{
}

/// Each status has its words.
pub proof fn law_statuses_have_words()
    ensures
        reason(200) == "OK"@,
        reason(400) == "Bad Request"@,
        reason(454) == "Session Not Found"@,
        reason(461) == "Unsupported Transport"@,
        reason(501) == "Not Implemented"@,
        reason(503) == "Service Unavailable"@,
{
}

/// The fields that an answer is sent with.
pub open spec fn answer_fields(r: ResponseView) -> Seq<Field> {
    (match r.cseq {
        Some(n) => seq![Field { name: "CSeq"@, value: decimal(n as nat) }],
        None => Seq::empty(),
    }) + (match r.session {
        Some(s) => seq![Field { name: "Session"@, value: s }],
        None => Seq::empty(),
    }) + r.headers.map_values(|f: FieldView| Field { name: f.0, value: f.1 }) + (if r.body.len() > 0 {
        seq![Field { name: "Content-Length"@, value: decimal(r.body.len()) }]
    } else {
        Seq::empty()
    })
}

/// Whether an answer's own fields can be written, and none of them is one that every answer has.
pub open spec fn has_plain_fields(r: ResponseView) -> bool {
    &&& r.session matches Some(s) ==> is_line_text(s)
    &&& forall|j: int|
        0 <= j < r.headers.len() ==> {
            let f = #[trigger] r.headers[j];
            &&& is_field(Field { name: f.0, value: f.1 })
            &&& !same_but_for_case(f.0, "CSeq"@)
            &&& !same_but_for_case(f.0, "Session"@)
            &&& !same_but_for_case(f.0, "Content-Length"@)
        }
}

/// Fields, each with the end of its line.
spec fn ended_lines(fields: Seq<Field>) -> Seq<char>
    decreases fields.len(),
{
    if fields.len() == 0 {
        Seq::empty()
    } else {
        ended_lines(fields.drop_last()) + (field_line(fields.last()) + "\r\n"@)
    }
}

proof fn lemma_ended_sum(a: Seq<Field>, b: Seq<Field>)
    ensures
        ended_lines(a + b) == ended_lines(a) + ended_lines(b),
    decreases b.len(),
{
    if b.len() == 0 {
        assert(a + b =~= a);
        assert(ended_lines(a) + ended_lines(b) =~= ended_lines(a));
    } else {
        assert((a + b).drop_last() =~= a + b.drop_last());
        lemma_ended_sum(a, b.drop_last());
        assert(ended_lines(a + b) =~= ended_lines(a) + ended_lines(b));
    }
}

proof fn lemma_ended_block(first: Seq<char>, fields: Seq<Field>)
    ensures
        first + "\r\n"@ + ended_lines(fields) == header_block(first, fields) + "\r\n"@,
    decreases fields.len(),
{
    reveal_strlit("\r\n");
    assert("\r\n"@ =~= seq!['\r', '\n']);
    if fields.len() == 0 {
        assert(first + "\r\n"@ + ended_lines(fields) =~= header_block(first, fields) + "\r\n"@);
    } else {
        lemma_ended_block(first, fields.drop_last());
        assert(first + "\r\n"@ + ended_lines(fields) =~= (first + "\r\n"@ + ended_lines(fields.drop_last())) + (
        field_line(fields.last()) + "\r\n"@));
        assert(header_block(first, fields) + "\r\n"@ =~= (header_block(first, fields.drop_last()) + "\r\n"@) + (
        field_line(fields.last()) + "\r\n"@));
    }
}

proof fn lemma_one_ended(f: Field)
    ensures
        ended_lines(seq![f]) == f.name + ": "@ + f.value + "\r\n"@,
{
    reveal_strlit(": ");
    reveal_strlit("\r\n");
    assert(seq![f].drop_last() =~= Seq::<Field>::empty());
    assert(ended_lines(Seq::<Field>::empty()) =~= Seq::<char>::empty());
    assert(": "@ =~= seq![':', ' ']);
    assert(ended_lines(seq![f]) =~= f.name + ": "@ + f.value + "\r\n"@);
}

proof fn lemma_headers_ended(headers: Seq<FieldView>)
    ensures
        field_lines(headers) == ended_lines(headers.map_values(|f: FieldView| Field { name: f.0, value: f.1 })),
    decreases headers.len(),
{
    let to = |f: FieldView| Field { name: f.0, value: f.1 };
    if headers.len() > 0 {
        lemma_headers_ended(headers.drop_last());
        let all = headers.map_values(to);
        assert(all.drop_last() =~= headers.drop_last().map_values(to));
        reveal_strlit(": ");
        assert(": "@ =~= seq![':', ' ']);
        assert(field_line(all.last()) + "\r\n"@ =~= headers.last().0 + ": "@ + headers.last().1 + "\r\n"@);
    }
}

/// An answer is a status line, its fields, an empty line and its body.
pub proof fn law_answer_is_a_block(r: ResponseView)
    ensures
        response_bytes(r) == encode_utf8(
            header_block("RTSP/1.0 "@ + decimal(r.status as nat) + " "@ + reason(r.status), answer_fields(r)) + "\r\n"@
                + "\r\n"@,
        ) + r.body,
{
    let first = "RTSP/1.0 "@ + decimal(r.status as nat) + " "@ + reason(r.status);
    lemma_answer_lines(r);
    lemma_ended_block(first, answer_fields(r));
    let a = first + "\r\n"@;
    let b = cseq_text(r);
    let c = session_text(r);
    let d = field_lines(r.headers);
    let e = length_text(r);
    assert(head_text(r) == a + b + c + d + e + "\r\n"@);
    assert(a + b + c + d + e =~= a + (b + c + d + e));
}

spec fn cseq_text(r: ResponseView) -> Seq<char> {
    match r.cseq {
        Some(n) => "CSeq: "@ + decimal(n as nat) + "\r\n"@,
        None => Seq::empty(),
    }
}

spec fn session_text(r: ResponseView) -> Seq<char> {
    match r.session {
        Some(s) => "Session: "@ + s + "\r\n"@,
        None => Seq::empty(),
    }
}

spec fn length_text(r: ResponseView) -> Seq<char> {
    if r.body.len() > 0 {
        "Content-Length: "@ + decimal(r.body.len()) + "\r\n"@
    } else {
        Seq::empty()
    }
}

proof fn lemma_answer_lines(r: ResponseView)
    ensures
        ended_lines(answer_fields(r)) == cseq_text(r) + session_text(r) + field_lines(r.headers) + length_text(r),
{
    let a = match r.cseq {
        Some(n) => seq![Field { name: "CSeq"@, value: decimal(n as nat) }],
        None => Seq::<Field>::empty(),
    };
    let b = match r.session {
        Some(s) => seq![Field { name: "Session"@, value: s }],
        None => Seq::<Field>::empty(),
    };
    let c = r.headers.map_values(|f: FieldView| Field { name: f.0, value: f.1 });
    let d = if r.body.len() > 0 {
        seq![Field { name: "Content-Length"@, value: decimal(r.body.len()) }]
    } else {
        Seq::<Field>::empty()
    };
    lemma_ended_sum(a, b);
    lemma_ended_sum(a + b, c);
    lemma_ended_sum(a + b + c, d);
    lemma_headers_ended(r.headers);
    lemma_field_words();
    assert(ended_lines(a) == cseq_text(r)) by {
        if let Some(n) = r.cseq {
            lemma_one_ended(Field { name: "CSeq"@, value: decimal(n as nat) });
        }
    }
    assert(ended_lines(b) == session_text(r)) by {
        if let Some(s) = r.session {
            lemma_one_ended(Field { name: "Session"@, value: s });
        }
    }
    assert(ended_lines(d) == length_text(r)) by {
        if r.body.len() > 0 {
            lemma_one_ended(Field { name: "Content-Length"@, value: decimal(r.body.len()) });
        }
    }
}

proof fn lemma_field_words()
    ensures
        "CSeq: "@ == "CSeq"@ + ": "@,
        "Session: "@ == "Session"@ + ": "@,
        "Content-Length: "@ == "Content-Length"@ + ": "@,
{
    reveal_strlit("CSeq: ");
    reveal_strlit("CSeq");
    reveal_strlit("Session: ");
    reveal_strlit("Session");
    reveal_strlit("Content-Length: ");
    reveal_strlit("Content-Length");
    reveal_strlit(": ");
    assert("CSeq: "@ =~= "CSeq"@ + ": "@);
    assert("Session: "@ =~= "Session"@ + ": "@);
    assert("Content-Length: "@ =~= "Content-Length"@ + ": "@);
}

proof fn lemma_position_none(s: Seq<char>, c: char)
    requires
        lacks(s, c),
    ensures
        position(s, c) is None,
    decreases s.len(),
{
    if s.len() > 0 {
        assert(s[0] != c);
        assert(lacks(s.skip(1), c));
        lemma_position_none(s.skip(1), c);
    }
}

proof fn lemma_status_line(status: u16, c: char)
    requires
        c == ':' || c == '\r',
    ensures
        lacks("RTSP/1.0 "@ + decimal(status as nat) + " "@ + reason(status), c),
{
    reveal_strlit("RTSP/1.0 ");
    reveal_strlit(" ");
    reveal_strlit("OK");
    reveal_strlit("Bad Request");
    reveal_strlit("Session Not Found");
    reveal_strlit("Unsupported Transport");
    reveal_strlit("Not Implemented");
    reveal_strlit("Service Unavailable");
    lemma_numeral(status as nat, u16::MAX as nat, c);
    lemma_lacks_sum("RTSP/1.0 "@, decimal(status as nat), c);
    lemma_lacks_sum("RTSP/1.0 "@ + decimal(status as nat), " "@, c);
    assert(lacks(reason(status), c));
    lemma_lacks_sum("RTSP/1.0 "@ + decimal(status as nat) + " "@, reason(status), c);
}

proof fn lemma_own_names()
    ensures
        !same_but_for_case("CSeq"@, "Session"@),
        !same_but_for_case("CSeq"@, "Content-Length"@),
        !same_but_for_case("Session"@, "CSeq"@),
        !same_but_for_case("Session"@, "Content-Length"@),
        !same_but_for_case("Content-Length"@, "CSeq"@),
        !same_but_for_case("Content-Length"@, "Session"@),
        is_line_text("CSeq"@) && lacks("CSeq"@, ':') && "CSeq"@.len() > 0,
        is_line_text("Session"@) && lacks("Session"@, ':') && "Session"@.len() > 0,
        is_line_text("Content-Length"@) && lacks("Content-Length"@, ':') && "Content-Length"@.len() > 0,
{
    reveal_strlit("CSeq");
    reveal_strlit("Session");
    reveal_strlit("Content-Length");
    assert("CSeq"@.len() == 4 && "Session"@.len() == 7 && "Content-Length"@.len() == 14);
}

proof fn lemma_decimal_is_line_text(n: nat)
    ensures
        is_line_text(decimal(n)),
{
    law_decimal_reads_back(n);
    lemma_numeral(n, n, '\r');
    lemma_numeral(n, n, '\n');
    assert(crate::text::is_digit(decimal(n)[0]));
    assert(crate::text::is_digit(decimal(n)[decimal(n).len() - 1]));
}

/// A client reads in an answer the number of its request, the session, and the length of the body; where
/// there is none of one of these, it reads none.
pub proof fn law_answer_is_read(r: ResponseView)
    requires
        has_plain_fields(r),
    ensures
        ({
            let block = header_block(
                "RTSP/1.0 "@ + decimal(r.status as nat) + " "@ + reason(r.status),
                answer_fields(r),
            );
            &&& header_of(block, "CSeq"@) == (match r.cseq {
                Some(n) => Some(decimal(n as nat)),
                None => None,
            })
            &&& header_of(block, "Session"@) == r.session
            &&& header_of(block, "Content-Length"@) == (if r.body.len() > 0 {
                Some(decimal(r.body.len()))
            } else {
                None
            })
        }),
{
    let first = "RTSP/1.0 "@ + decimal(r.status as nat) + " "@ + reason(r.status);
    let fields = answer_fields(r);
    lemma_status_line(r.status, ':');
    lemma_status_line(r.status, '\r');
    lemma_position_none(first, ':');
    lemma_own_names();
    let p: int = if r.cseq is Some {
        1
    } else {
        0
    };
    let q: int = p + if r.session is Some {
        1int
    } else {
        0
    };
    let n = r.headers.len() as int;
    if let Some(k) = r.cseq {
        lemma_decimal_is_line_text(k as nat);
        assert(fields[0] == Field { name: "CSeq"@, value: decimal(k as nat) });
    }
    if let Some(s) = r.session {
        assert(fields[p] == Field { name: "Session"@, value: s });
    }
    assert forall|j: int| q <= j < q + n implies #[trigger] fields[j] == (Field {
        name: r.headers[j - q].0,
        value: r.headers[j - q].1,
    }) by {}
    if r.body.len() > 0 {
        lemma_decimal_is_line_text(r.body.len());
        assert(fields[q + n] == Field { name: "Content-Length"@, value: decimal(r.body.len()) });
    }
    assert forall|j: int| 0 <= j < fields.len() implies is_field(#[trigger] fields[j]) by {
        if q <= j < q + n {
            assert(is_field(Field { name: r.headers[j - q].0, value: r.headers[j - q].1 }));
        }
    }
    lemma_same("CSeq"@);
    lemma_same("Session"@);
    lemma_same("Content-Length"@);
    if r.cseq is Some {
        law_field_is_read_under_its_name(first, fields, "CSeq"@, 0);
    } else {
        law_unwritten_field_is_none(first, fields, "CSeq"@);
    }
    if r.session is Some {
        law_field_is_read_under_its_name(first, fields, "Session"@, p);
    } else {
        law_unwritten_field_is_none(first, fields, "Session"@);
    }
    if r.body.len() > 0 {
        law_field_is_read_under_its_name(first, fields, "Content-Length"@, q + n);
    } else {
        law_unwritten_field_is_none(first, fields, "Content-Length"@);
    }
}

proof fn lemma_same(a: Seq<char>)
    ensures
        same_but_for_case(a, a),
{
}

/// A connection takes what comes in order, up to 65536 bytes of what is no request yet, and beyond that is
/// closed; packets that the client sends are no part of its requests. Nothing else changes.
pub proof fn law_connection_takes_what_comes(c: &mut RtspConnection, chunk: &[u8], stays: bool)
    requires
        call_ensures(RtspConnection::on_bytes, (c, chunk), stays),
    ensures
        stays <==> old(c)@.buf.len() + chunk@.len() <= 65536,
        final(c)@.sessions == old(c)@.sessions,
        final(c)@.clients == old(c)@.clients,
        final(c)@.pending == old(c)@.pending,
        stays && old(c)@.buf.len() > 0 && old(c)@.buf[0] != 0x24 ==> final(c)@.buf == old(c)@.buf + chunk@,
        stays && old(c)@.buf.len() == 0 && chunk@.len() > 0 && chunk@[0] != 0x24 ==> final(c)@.buf == chunk@,
        forall|channel: u8, pkt: Seq<u8>, rest: Seq<u8>|
            stays && pkt.len() <= 0xFFFF && (rest.len() == 0 || rest[0] != 0x24) && old(c)@.buf + chunk@
                == #[trigger] (interleaved(channel, pkt) + rest) ==> final(c)@.buf == rest,
{
    let all = old(c)@.buf + chunk@;
    if all.len() > 0 && all[0] != 0x24 {
        law_requests_are_not_drained(all);
        assert(old(c)@.buf.len() == 0 ==> all =~= chunk@);
    }
    assert forall|channel: u8, pkt: Seq<u8>, rest: Seq<u8>|
        stays && pkt.len() <= 0xFFFF && (rest.len() == 0 || rest[0] != 0x24) && all == #[trigger] (interleaved(
            channel,
            pkt,
        ) + rest) implies final(c)@.buf == rest by {
        law_packets_are_drained(channel, pkt, rest);
        if rest.len() > 0 {
            law_requests_are_not_drained(rest);
        }
    }
}

/// What is no request is refused with 400, and nothing is kept of it; of one that has not come whole, all
/// is kept. Neither touches a session, a client or the hub.
pub proof fn law_wrong_requests_are_refused(
    c: ConnectionView,
    hub: HubView,
    server_ip: Seq<char>,
    fps: Option<Seq<char>>,
    server_rtp: u16,
)
    requires
        parsed(c.buf) !is Request,
    ensures
        ({
            let out = after_next(c, hub, server_ip, fps, server_rtp);
            &&& out.hub == hub
            &&& out.connection.sessions == c.sessions && out.connection.clients == c.clients
                && out.connection.pending == c.pending
            &&& parsed(c.buf) is Part ==> out.step is Wait && out.connection.buf == c.buf
            &&& parsed(c.buf) !is Part ==> out.connection.buf.len() == 0 && (out.step matches StepView::Refuse(bytes, v)
                && bytes == encode_utf8("RTSP/1.0 "@ + decimal(400) + " "@ + "Bad Request"@ + "\r\n"@ + "\r\n"@)
                && (v is Some <==> parsed(c.buf) is Foreign))
            &&& parsed(c.buf) matches Parsed::Foreign(version) ==> (out.step matches StepView::Refuse(_, v) && v
                == Some(version))
        }),
{
    lemma_bare_bytes(400);
}

proof fn lemma_bare_bytes(status: u16)
    ensures
        response_bytes(bare(status, None)) == encode_utf8(
            "RTSP/1.0 "@ + decimal(status as nat) + " "@ + reason(status) + "\r\n"@ + "\r\n"@,
        ),
{
    let r = bare(status, None);
    assert(field_lines(r.headers) =~= Seq::<char>::empty());
    assert(head_text(r) =~= "RTSP/1.0 "@ + decimal(status as nat) + " "@ + reason(status) + "\r\n"@ + "\r\n"@);
    assert(response_bytes(r) =~= encode_utf8(head_text(r)));
}

/// A client over the limit is told 503.
pub proof fn law_client_over_the_limit_is_told(r: Vec<u8>)
    requires
        call_ensures(refusal, (), r),
    ensures
        r@ == encode_utf8("RTSP/1.0 "@ + decimal(503) + " "@ + "Service Unavailable"@ + "\r\n"@ + "\r\n"@),
{
    lemma_bare_bytes(503);
}

/// What comes behind a request waits for its turn, byte for byte.
pub proof fn law_requests_are_served_in_turn(
    c: ConnectionView,
    hub: HubView,
    server_ip: Seq<char>,
    fps: Option<Seq<char>>,
    server_rtp: u16,
)
    ensures
        parsed(c.buf) matches Parsed::Request(req, len) ==> after_next(
            c,
            hub,
            server_ip,
            fps,
            server_rtp,
        ).connection.buf == c.buf.skip(len),
{
}

} // verus!
