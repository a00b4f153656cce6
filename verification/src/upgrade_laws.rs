//! Laws of the WebSocket upgrade and of what it tells of the camera.

use crate::http::line_value;
use crate::http_laws::{
    header_block, is_field, is_line_text, law_block_ends_at_the_empty_line, law_empty_line_holds_no_field,
    lemma_case, same_but_for_case, Field,
};
use crate::protect_listener::{controller_address, destination_at, name_for_mac, without};
use crate::request_laws::{lemma_block_has_lines, lemma_found, lemma_no_empty_line, told};
use crate::text::{contains_text, last_position, lowered, pieces, trimmed};
use crate::text_laws::{lacks, lemma_contains_itself, lemma_contains_sum};
use crate::ws::{accept_of, offers, subprotocol, upgrade_answer, upgrade_check, UpgradeCheck};
use vstd::prelude::*;
use vstd::utf8::{
    encode_utf8, encode_utf8_decode_utf8, encode_utf8_valid_utf8, is_ascii_chars, is_ascii_chars_encode_utf8,
};

verus! {

/// Whether a list of protocols, separated by commas, names one, whatever the case of the letters and
/// the white space around it.
pub open spec fn lists(value: Seq<char>, protocol: Seq<char>) -> bool {
    exists|i: int|
        0 <= i < pieces(value, seq![',']).len() && same_but_for_case(
            trimmed(#[trigger] pieces(value, seq![','])[i]),
            protocol,
        )
}

proof fn lemma_lists(value: Seq<char>)
    ensures
        lists(value, "secure_transfer"@) <==> exists|i: int|
            0 <= i < pieces(value, seq![',']).len() && lowered(trimmed(#[trigger] pieces(value, seq![','])[i]))
                == "secure_transfer"@,
{
    let parts = pieces(value, seq![',']);
    reveal_strlit("secure_transfer");
    assert(lowered("secure_transfer"@) =~= "secure_transfer"@);
    assert forall|i: int| 0 <= i < parts.len() implies (lowered(trimmed(#[trigger] parts[i])) == "secure_transfer"@)
        == same_but_for_case(trimmed(parts[i]), "secure_transfer"@) by {
        lemma_case(trimmed(parts[i]), "secure_transfer"@);
    }
    if lists(value, "secure_transfer"@) {
        let i = choose|i: int|
            0 <= i < parts.len() && same_but_for_case(trimmed(#[trigger] parts[i]), "secure_transfer"@);
        assert(lowered(trimmed(parts[i])) == "secure_transfer"@);
    }
    if exists|i: int| 0 <= i < parts.len() && lowered(trimmed(#[trigger] parts[i])) == "secure_transfer"@ {
        let i = choose|i: int| 0 <= i < parts.len() && lowered(trimmed(#[trigger] parts[i])) == "secure_transfer"@;
        assert(same_but_for_case(trimmed(parts[i]), "secure_transfer"@));
    }
}

/// A request to upgrade is answered once its headers have arrived: the answer is 101, tells the accept
/// value of the request's own key, and names the protocol `secure_transfer` iff the request lists it.
/// Without a key, or with a version other than 13 where that counts, there is no answer. What follows
/// the headers is not taken.
pub proof fn law_upgrade_is_answered(first: Seq<char>, fields: Seq<Field>, rest: Seq<u8>, any_version: bool)
    requires
        is_ascii_chars(header_block(first, fields)),
        is_line_text(first),
        forall|j: int| 0 <= j < fields.len() ==> is_field(#[trigger] fields[j]),
        line_value(first, "Sec-WebSocket-Key"@) is None,
        line_value(first, "Sec-WebSocket-Version"@) is None,
        line_value(first, "Sec-WebSocket-Protocol"@) is None,
    ensures
        ({
            let head = encode_utf8(header_block(first, fields));
            let check = upgrade_check(head + seq![13u8, 10, 13, 10] + rest, any_version);
            let current = told(fields, "Sec-WebSocket-Version"@) == Some("13"@);
            &&& told(fields, "Sec-WebSocket-Key"@) is None ==> check is NoKey
            &&& told(fields, "Sec-WebSocket-Key"@) matches Some(key) ==> {
                &&& !any_version && !current ==> check is OtherVersion
                &&& any_version || current ==> (check matches UpgradeCheck::Ready(end, answer) && {
                    let listed = told(fields, "Sec-WebSocket-Protocol"@) matches Some(v) && lists(v, "secure_transfer"@);
                    &&& end == head.len() + 4
                    &&& contains_text(answer, "HTTP/1.1 101 Switching Protocols\r\n"@)
                    &&& contains_text(answer, "Sec-WebSocket-Accept: "@ + accept_of(key) + "\r\n"@)
                    &&& listed ==> contains_text(answer, "Sec-WebSocket-Protocol: secure_transfer\r\n"@)
                    &&& !listed ==> answer
                        == "HTTP/1.1 101 Switching Protocols\r\nUpgrade: websocket\r\nConnection: Upgrade\r\nSec-WebSocket-Accept: "@
                        + accept_of(key) + "\r\n\r\n"@
                })
            }
        }),
{
    let text = header_block(first, fields);
    let end = seq!['\r', '\n', '\r', '\n'];
    let head = encode_utf8(text);
    let tail = seq![13u8, 10, 13, 10];
    let buf = head + tail + rest;
    lemma_block_has_lines(first, fields);
    lemma_no_empty_line(text);
    law_block_ends_at_the_empty_line(head, rest);
    let whole = text + end;
    is_ascii_chars_encode_utf8(text);
    assert(is_ascii_chars(whole));
    is_ascii_chars_encode_utf8(whole);
    let bytes = encode_utf8(whole);
    assert(bytes =~= head + tail) by {
        assert forall|i: int| 0 <= i < bytes.len() implies bytes[i] == (head + tail)[i] by {
            assert(whole[i] as u8 == bytes[i]);
            if i < text.len() {
                assert(whole[i] == text[i]);
                assert(text[i] as u8 == head[i]);
            } else {
                assert(whole[i] == end[i - text.len()]);
            }
        }
    }
    assert(buf.take(head.len() as int + 4) =~= bytes);
    encode_utf8_valid_utf8(whole);
    encode_utf8_decode_utf8(whole);
    lemma_found(first, fields, "Sec-WebSocket-Key"@);
    lemma_found(first, fields, "Sec-WebSocket-Version"@);
    lemma_found(first, fields, "Sec-WebSocket-Protocol"@);
    law_empty_line_holds_no_field(first, fields, "Sec-WebSocket-Key"@);
    law_empty_line_holds_no_field(first, fields, "Sec-WebSocket-Version"@);
    law_empty_line_holds_no_field(first, fields, "Sec-WebSocket-Protocol"@);
    if let Some(v) = told(fields, "Sec-WebSocket-Protocol"@) {
        lemma_lists(v);
    }
    if let Some(key) = told(fields, "Sec-WebSocket-Key"@) {
        lemma_answer(whole, key);
    }
}

proof fn lemma_answer(request: Seq<char>, key: Seq<char>)
    ensures
        ({
            let answer = upgrade_answer(request, key);
            &&& contains_text(answer, "HTTP/1.1 101 Switching Protocols\r\n"@)
            &&& contains_text(answer, "Sec-WebSocket-Accept: "@ + accept_of(key) + "\r\n"@)
            &&& offers(request, subprotocol()) ==> contains_text(
                answer,
                "Sec-WebSocket-Protocol: secure_transfer\r\n"@,
            )
            &&& !offers(request, subprotocol()) ==> answer
                == "HTTP/1.1 101 Switching Protocols\r\nUpgrade: websocket\r\nConnection: Upgrade\r\nSec-WebSocket-Accept: "@
                + accept_of(key) + "\r\n\r\n"@
        }),
{
    let front =
        "HTTP/1.1 101 Switching Protocols\r\nUpgrade: websocket\r\nConnection: Upgrade\r\nSec-WebSocket-Accept: "@;
    let status = "HTTP/1.1 101 Switching Protocols\r\n"@;
    let name = "Sec-WebSocket-Accept: "@;
    reveal_strlit(
        "HTTP/1.1 101 Switching Protocols\r\nUpgrade: websocket\r\nConnection: Upgrade\r\nSec-WebSocket-Accept: ",
    );
    reveal_strlit("HTTP/1.1 101 Switching Protocols\r\n");
    reveal_strlit("Sec-WebSocket-Accept: ");
    reveal_strlit("\r\n");
    reveal_strlit("");
    let middle = front.subrange(34, front.len() - 22);
    assert(front =~= status + middle + name);
    let line = if offers(request, subprotocol()) {
        "Sec-WebSocket-Protocol: secure_transfer\r\n"@
    } else {
        ""@
    };
    let value = accept_of(key);
    let accept = name + value + "\r\n"@;
    let answer = upgrade_answer(request, key);
    assert(answer =~= status + middle + accept + line + "\r\n"@);
    reveal_strlit("\r\n\r\n");
    if !offers(request, subprotocol()) {
        assert(answer =~= front + value + "\r\n\r\n"@);
    }
    lemma_contains_itself(status);
    lemma_contains_itself(accept);
    lemma_contains_itself(line);
    lemma_contains_sum(status, middle, status);
    lemma_contains_sum(status + middle, accept, status);
    lemma_contains_sum(status + middle, accept, accept);
    lemma_contains_sum(status + middle + accept, line, status);
    lemma_contains_sum(status + middle + accept, line, accept);
    lemma_contains_sum(status + middle + accept, line, line);
    lemma_contains_sum(status + middle + accept + line, "\r\n"@, status);
    lemma_contains_sum(status + middle + accept + line, "\r\n"@, accept);
    lemma_contains_sum(status + middle + accept + line, "\r\n"@, line);
}

/// The camera is told to send its stream to the address that it reached: that of the connection's own
/// end where it is known, else the one in the `Host` field without its port, else the configured one.
pub proof fn law_stream_goes_where_the_camera_came(
    local: Seq<char>,
    host: Option<Seq<char>>,
    address: Seq<char>,
    port: Seq<char>,
    advertised: Seq<char>,
)
    requires
        lacks(port, ':'),
    ensures
        destination_at(controller_address(Some(local), host, advertised)) == "tcp://"@ + local
            + ":7550?retryInterval=1&connectTimeout=5"@,
        destination_at(controller_address(None, Some(address + seq![':'] + port), advertised)) == "tcp://"@ + address
            + ":7550?retryInterval=1&connectTimeout=5"@,
        destination_at(controller_address(None, None, advertised)) == "tcp://"@ + advertised
            + ":7550?retryInterval=1&connectTimeout=5"@,
        controller_address(None, Some(port), advertised) == advertised,
{
    lemma_last_colon(address + seq![':'], port);
    assert((address + seq![':']).last() == ':');
    assert((address + seq![':'] + port).take(address.len() as int) =~= address);
    lemma_last_colon(Seq::empty(), port);
    assert(Seq::<char>::empty() + port =~= port);
}

/// Characters that are no colon do not move where the last one stands.
proof fn lemma_last_colon(s: Seq<char>, more: Seq<char>)
    requires
        lacks(more, ':'),
    ensures
        last_position(s + more, ':') == last_position(s, ':'),
    decreases more.len(),
{
    if more.len() == 0 {
        assert(s + more =~= s);
    } else {
        assert((s + more).drop_last() =~= s + more.drop_last());
        assert(more[more.len() - 1] == more.last());
        lemma_last_colon(s, more.drop_last());
    }
}

/// A camera's stream is named after its MAC without the colons, with `_0` behind it: groups of digits
/// follow each other as they stand in the MAC, and a MAC of nothing but colons names none.
pub proof fn law_stream_is_named_after_the_mac(a: Seq<char>, b: Seq<char>)
    requires
        lacks(a, ':'),
    ensures
        without(a, ':') == a,
        without(a + seq![':'] + b, ':') == a + without(b, ':'),
        a.len() > 0 ==> name_for_mac(a) == Some(a + "_0"@),
        a.len() > 0 ==> name_for_mac(a + seq![':'] + b) == Some(a + without(b, ':') + "_0"@),
        name_for_mac(Seq::empty()) is None,
        name_for_mac(seq![':']) is None,
{
    lemma_without_none(a);
    lemma_without_sum(a + seq![':'], b);
    lemma_without_sum(a, seq![':']);
    let none = Seq::<char>::empty();
    reveal_with_fuel(without, 3);
    assert(seq![':'].drop_last() =~= none);
    assert(a + none =~= a);
}

proof fn lemma_without_none(a: Seq<char>)
    requires
        lacks(a, ':'),
    ensures
        without(a, ':') == a,
    decreases a.len(),
{
    if a.len() > 0 {
        assert(a[a.len() - 1] == a.last());
        lemma_without_none(a.drop_last());
        assert(a.drop_last().push(a.last()) =~= a);
    }
}

proof fn lemma_without_sum(a: Seq<char>, b: Seq<char>)
    ensures
        without(a + b, ':') == without(a, ':') + without(b, ':'),
    decreases b.len(),
{
    if b.len() == 0 {
        assert(a + b =~= a);
        assert(without(a, ':') + without(b, ':') =~= without(a, ':'));
    } else {
        lemma_without_sum(a, b.drop_last());
        assert((a + b).drop_last() =~= a + b.drop_last());
        assert((a + b).last() == b.last());
        if b.last() != ':' {
            assert((without(a, ':') + without(b.drop_last(), ':')).push(b.last()) =~= without(a, ':') + without(
                b.drop_last(),
                ':',
            ).push(b.last()));
        }
    }
}

} // verus!
