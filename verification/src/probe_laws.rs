//! Laws of discovery: what a question is answered with.

use crate::answer_laws::{lemma_element_is, tells};
use crate::envelope_laws::{lemma_attributes_contain, lemma_declaration};
use crate::onvif_discovery::{
    answer_to, device_lines, envelope, header_lines, message_id_in, notice, probe_mark, probe_match, relation,
    ACTION_BYE, ACTION_HELLO, ACTION_PROBE_MATCH, DEVICE_TYPE, DEVICE_TYPE_DEVICE, NS_DISCOVERY, SCOPE_HARDWARE,
    SCOPE_NAME, SCOPE_STREAMING,
};
use crate::text::{contains_text, find_from, position, white_space};
use crate::text_laws::{lacks, lemma_block_contains, lemma_contains_sum, lemma_element_contains, lemma_trimmed_already};
use crate::xml::{block_text, element_line, element_with, escaped, namespace_text, NS_ADDRESSING, NS_ENVELOPE};
use vstd::prelude::*;
use vstd::utf8::{decode_utf8, encode_utf8, encode_utf8_decode_utf8, encode_utf8_valid_utf8, valid_utf8};

verus! {

/// What stands in the header or in the body of a message stands in the message.
proof fn lemma_envelope_contains(action: Seq<char>, relates: Seq<char>, body: Seq<char>, word: Seq<char>)
    requires
        contains_text(header_lines(action, relates), word) || contains_text(body, word),
    ensures
        contains_text(envelope(action, relates, body), word),
{
    let head = block_text("s:Header"@, header_lines(action, relates));
    let tail = block_text("s:Body"@, body);
    if contains_text(body, word) {
        lemma_block_contains("s:Body"@, body, word);
    } else {
        lemma_block_contains("s:Header"@, header_lines(action, relates), word);
    }
    lemma_contains_sum("\n"@, head, word);
    lemma_contains_sum("\n"@ + head, tail, word);
    let attributes = namespace_text("s"@, NS_ENVELOPE@) + namespace_text("wsa"@, NS_ADDRESSING@) + namespace_text(
        "wsdiscovery"@,
        NS_DISCOVERY@,
    );
    lemma_element_contains("s:Envelope"@, attributes, "\n"@ + head + tail, word);
    lemma_contains_sum(
        "<?xml version=\"1.0\" encoding=\"UTF-8\"?>\n"@,
        element_with("s:Envelope"@, attributes, "\n"@ + head + tail),
        word,
    );
}

/// The tags of the elements that describe the device.
proof fn lemma_tags()
    ensures
        "<wsa:Address>"@ == seq!['<'] + "wsa:Address"@ + seq!['>'],
        "</wsa:Address>"@ == seq!['<', '/'] + "wsa:Address"@ + seq!['>'],
        "<wsdiscovery:XAddrs>"@ == seq!['<'] + "wsdiscovery:XAddrs"@ + seq!['>'],
        "</wsdiscovery:XAddrs>"@ == seq!['<', '/'] + "wsdiscovery:XAddrs"@ + seq!['>'],
        "<wsdiscovery:Types>"@ == seq!['<'] + "wsdiscovery:Types"@ + seq!['>'],
        "</wsdiscovery:Types>"@ == seq!['<', '/'] + "wsdiscovery:Types"@ + seq!['>'],
        "<wsa:RelatesTo>"@ == seq!['<'] + "wsa:RelatesTo"@ + seq!['>'],
        "</wsa:RelatesTo>"@ == seq!['<', '/'] + "wsa:RelatesTo"@ + seq!['>'],
        "<wsa:Action>"@ == seq!['<'] + "wsa:Action"@ + seq!['>'],
        "</wsa:Action>"@ == seq!['<', '/'] + "wsa:Action"@ + seq!['>'],
{
    reveal_strlit("wsa:Address");
    reveal_strlit("<wsa:Address>");
    reveal_strlit("</wsa:Address>");
    reveal_strlit("wsdiscovery:XAddrs");
    reveal_strlit("<wsdiscovery:XAddrs>");
    reveal_strlit("</wsdiscovery:XAddrs>");
    reveal_strlit("wsdiscovery:Types");
    reveal_strlit("<wsdiscovery:Types>");
    reveal_strlit("</wsdiscovery:Types>");
    reveal_strlit("wsa:RelatesTo");
    reveal_strlit("<wsa:RelatesTo>");
    reveal_strlit("</wsa:RelatesTo>");
    reveal_strlit("wsa:Action");
    reveal_strlit("<wsa:Action>");
    reveal_strlit("</wsa:Action>");
    assert("<wsa:Address>"@ =~= seq!['<'] + "wsa:Address"@ + seq!['>']);
    assert("</wsa:Address>"@ =~= seq!['<', '/'] + "wsa:Address"@ + seq!['>']);
    assert("<wsdiscovery:XAddrs>"@ =~= seq!['<'] + "wsdiscovery:XAddrs"@ + seq!['>']);
    assert("</wsdiscovery:XAddrs>"@ =~= seq!['<', '/'] + "wsdiscovery:XAddrs"@ + seq!['>']);
    assert("<wsdiscovery:Types>"@ =~= seq!['<'] + "wsdiscovery:Types"@ + seq!['>']);
    assert("</wsdiscovery:Types>"@ =~= seq!['<', '/'] + "wsdiscovery:Types"@ + seq!['>']);
    assert("<wsa:RelatesTo>"@ =~= seq!['<'] + "wsa:RelatesTo"@ + seq!['>']);
    assert("</wsa:RelatesTo>"@ =~= seq!['<', '/'] + "wsa:RelatesTo"@ + seq!['>']);
    assert("<wsa:Action>"@ =~= seq!['<'] + "wsa:Action"@ + seq!['>']);
    assert("</wsa:Action>"@ =~= seq!['<', '/'] + "wsa:Action"@ + seq!['>']);
}

/// Whether a text tells the device: its own address, where its service is, and that it transmits
/// video.
pub open spec fn tells_device(text: Seq<char>, xaddr: Seq<char>, device_addr: Seq<char>) -> bool {
    &&& tells(text, "<wsa:Address>"@, escaped(device_addr), "</wsa:Address>"@)
    &&& tells(text, "<wsdiscovery:XAddrs>"@, escaped(xaddr), "</wsdiscovery:XAddrs>"@)
    &&& tells(
        text,
        "<wsdiscovery:Types>"@,
        "tns:NetworkVideoTransmitter"@ + " "@ + "tds:Device"@,
        "</wsdiscovery:Types>"@,
    )
}

proof fn lemma_device_lines(xaddr: Seq<char>, device_addr: Seq<char>)
    ensures
        tells_device(device_lines(xaddr, device_addr), xaddr, device_addr),
{
    let types = DEVICE_TYPE@ + " "@ + DEVICE_TYPE_DEVICE@;
    let scopes = SCOPE_STREAMING@ + " "@ + SCOPE_HARDWARE@ + " "@ + SCOPE_NAME@;
    let a = block_text("wsa:EndpointReference"@, element_line("wsa:Address"@, escaped(device_addr)));
    let b = element_line("wsdiscovery:Types"@, types);
    let c = element_line("wsdiscovery:Scopes"@, scopes);
    let d = element_line("wsdiscovery:XAddrs"@, escaped(xaddr));
    let e = element_line("wsdiscovery:MetadataVersion"@, "1"@);
    let own = "<wsa:Address>"@ + escaped(device_addr) + "</wsa:Address>"@;
    let kind = "<wsdiscovery:Types>"@ + types + "</wsdiscovery:Types>"@;
    let place = "<wsdiscovery:XAddrs>"@ + escaped(xaddr) + "</wsdiscovery:XAddrs>"@;
    lemma_tags();
    lemma_element_is("wsa:Address"@, "<wsa:Address>"@, "</wsa:Address>"@, escaped(device_addr));
    lemma_element_is("wsdiscovery:Types"@, "<wsdiscovery:Types>"@, "</wsdiscovery:Types>"@, types);
    lemma_element_is("wsdiscovery:XAddrs"@, "<wsdiscovery:XAddrs>"@, "</wsdiscovery:XAddrs>"@, escaped(xaddr));
    lemma_block_contains("wsa:EndpointReference"@, element_line("wsa:Address"@, escaped(device_addr)), own);
    lemma_contains_sum(a, b, own);
    lemma_contains_sum(a, b, kind);
    lemma_contains_sum(a + b, c, own);
    lemma_contains_sum(a + b, c, kind);
    lemma_contains_sum(a + b + c, d, own);
    lemma_contains_sum(a + b + c, d, kind);
    lemma_contains_sum(a + b + c, d, place);
    lemma_contains_sum(a + b + c + d, e, own);
    lemma_contains_sum(a + b + c + d, e, kind);
    lemma_contains_sum(a + b + c + d, e, place);
}

proof fn lemma_body_tells(
    action: Seq<char>,
    relates: Seq<char>,
    body: Seq<char>,
    xaddr: Seq<char>,
    device_addr: Seq<char>,
)
    requires
        tells_device(body, xaddr, device_addr),
    ensures
        tells_device(envelope(action, relates, body), xaddr, device_addr),
{
    let own = "<wsa:Address>"@ + escaped(device_addr) + "</wsa:Address>"@;
    let kind = "<wsdiscovery:Types>"@ + ("tns:NetworkVideoTransmitter"@ + " "@ + "tds:Device"@) + "</wsdiscovery:Types>"@;
    let place = "<wsdiscovery:XAddrs>"@ + escaped(xaddr) + "</wsdiscovery:XAddrs>"@;
    lemma_envelope_contains(action, relates, body, own);
    lemma_envelope_contains(action, relates, body, kind);
    lemma_envelope_contains(action, relates, body, place);
}

proof fn lemma_block_tells(name: Seq<char>, content: Seq<char>, xaddr: Seq<char>, device_addr: Seq<char>)
    requires
        tells_device(content, xaddr, device_addr),
    ensures
        tells_device(block_text(name, content), xaddr, device_addr),
        tells_device(block_text(name, "\n"@ + content + "\n"@), xaddr, device_addr),
{
    let own = "<wsa:Address>"@ + escaped(device_addr) + "</wsa:Address>"@;
    let kind = "<wsdiscovery:Types>"@ + ("tns:NetworkVideoTransmitter"@ + " "@ + "tds:Device"@) + "</wsdiscovery:Types>"@;
    let place = "<wsdiscovery:XAddrs>"@ + escaped(xaddr) + "</wsdiscovery:XAddrs>"@;
    lemma_padded_block(name, content, own);
    lemma_padded_block(name, content, kind);
    lemma_padded_block(name, content, place);
}

proof fn lemma_padded_block(name: Seq<char>, content: Seq<char>, word: Seq<char>)
    requires
        contains_text(content, word),
    ensures
        contains_text(block_text(name, content), word),
        contains_text(block_text(name, "\n"@ + content + "\n"@), word),
{
    lemma_block_contains(name, content, word);
    lemma_contains_sum("\n"@, content, word);
    lemma_contains_sum("\n"@ + content, "\n"@, word);
    lemma_block_contains(name, "\n"@ + content + "\n"@, word);
}

/// Every announcement and every answer tells the device, and says what it is: an answer to a probe,
/// a greeting or a farewell.
pub proof fn law_messages_tell_the_device(xaddr: Seq<char>, device_addr: Seq<char>, relates_to: Option<Seq<char>>)
    ensures
        ({
            let found = probe_match(xaddr, device_addr, relates_to);
            let hello = notice(ACTION_HELLO@, "wsdiscovery:Hello"@, xaddr, device_addr);
            let bye = notice(ACTION_BYE@, "wsdiscovery:Bye"@, xaddr, device_addr);
            &&& tells_device(found, xaddr, device_addr)
            &&& tells_device(hello, xaddr, device_addr)
            &&& tells_device(bye, xaddr, device_addr)
            &&& tells(
                found,
                "<wsa:Action>"@,
                "http://schemas.xmlsoap.org/ws/2005/04/discovery/ProbeMatches"@,
                "</wsa:Action>"@,
            )
            &&& tells(
                hello,
                "<wsa:Action>"@,
                "http://schemas.xmlsoap.org/ws/2005/04/discovery/Hello"@,
                "</wsa:Action>"@,
            )
            &&& tells(bye, "<wsa:Action>"@, "http://schemas.xmlsoap.org/ws/2005/04/discovery/Bye"@, "</wsa:Action>"@)
        }),
{
    let lines = device_lines(xaddr, device_addr);
    let found = block_text("wsdiscovery:ProbeMatch"@, lines);
    let all = block_text("wsdiscovery:ProbeMatches"@, found);
    lemma_device_lines(xaddr, device_addr);
    lemma_block_tells("wsdiscovery:ProbeMatch"@, lines, xaddr, device_addr);
    lemma_block_tells("wsdiscovery:ProbeMatches"@, found, xaddr, device_addr);
    lemma_block_tells("wsdiscovery:Hello"@, lines, xaddr, device_addr);
    lemma_block_tells("wsdiscovery:Bye"@, lines, xaddr, device_addr);
    let hello = block_text("wsdiscovery:Hello"@, "\n"@ + lines + "\n"@);
    let bye = block_text("wsdiscovery:Bye"@, "\n"@ + lines + "\n"@);
    let none = Seq::<char>::empty();
    lemma_body_tells(ACTION_PROBE_MATCH@, relation(relates_to), all, xaddr, device_addr);
    lemma_body_tells(ACTION_HELLO@, none, hello, xaddr, device_addr);
    lemma_body_tells(ACTION_BYE@, none, bye, xaddr, device_addr);
    lemma_action_told(ACTION_PROBE_MATCH@, relation(relates_to), all);
    lemma_action_told(ACTION_HELLO@, none, hello);
    lemma_action_told(ACTION_BYE@, none, bye);
}

proof fn lemma_action_told(action: Seq<char>, relates: Seq<char>, body: Seq<char>)
    ensures
        tells(envelope(action, relates, body), "<wsa:Action>"@, action, "</wsa:Action>"@),
{
    let word = "<wsa:Action>"@ + action + "</wsa:Action>"@;
    let line = element_line("wsa:Action"@, action);
    let to = element_line("wsa:To"@, "urn:docs-oasis-open-org:ws-sx:ws-discovery"@);
    let sequence = "<wsdiscovery:AppSequence InstanceId=\"1\" MessageNumber=\"1\"/>\n"@;
    lemma_tags();
    lemma_element_is("wsa:Action"@, "<wsa:Action>"@, "</wsa:Action>"@, action);
    lemma_contains_sum(line, relates, word);
    lemma_contains_sum(line + relates, "\n"@, word);
    lemma_contains_sum(line + relates + "\n"@, to, word);
    lemma_contains_sum(line + relates + "\n"@ + to, sequence, word);
    lemma_envelope_contains(action, relates, body, word);
}

proof fn lemma_relation_told(xaddr: Seq<char>, device_addr: Seq<char>, id: Seq<char>)
    ensures
        tells(probe_match(xaddr, device_addr, Some(id)), "<wsa:RelatesTo>"@, escaped(id), "</wsa:RelatesTo>"@),
{
    let word = "<wsa:RelatesTo>"@ + escaped(id) + "</wsa:RelatesTo>"@;
    let relates = relation(Some(id));
    let line = element_line("wsa:Action"@, ACTION_PROBE_MATCH@);
    let to = element_line("wsa:To"@, "urn:docs-oasis-open-org:ws-sx:ws-discovery"@);
    let sequence = "<wsdiscovery:AppSequence InstanceId=\"1\" MessageNumber=\"1\"/>\n"@;
    let body = block_text(
        "wsdiscovery:ProbeMatches"@,
        block_text("wsdiscovery:ProbeMatch"@, device_lines(xaddr, device_addr)),
    );
    lemma_tags();
    lemma_element_is("wsa:RelatesTo"@, "<wsa:RelatesTo>"@, "</wsa:RelatesTo>"@, escaped(id));
    lemma_contains_sum(line, relates, word);
    lemma_contains_sum(line + relates, "\n"@, word);
    lemma_contains_sum(line + relates + "\n"@, to, word);
    lemma_contains_sum(line + relates + "\n"@ + to, sequence, word);
    lemma_envelope_contains(ACTION_PROBE_MATCH@, relates, body, word);
}

/// Where a character first stands behind a text without it.
proof fn lemma_position(a: Seq<char>, c: char, b: Seq<char>)
    requires
        lacks(a, c),
    ensures
        position(a + seq![c] + b, c) == Some(a.len() as int),
    decreases a.len(),
{
    let s = a + seq![c] + b;
    if a.len() == 0 {
        assert(s[0] == c);
    } else {
        assert(s[0] == a[0]);
        assert(s.skip(1) =~= a.skip(1) + seq![c] + b);
        lemma_position(a.skip(1), c, b);
    }
}

/// A probe is answered, and the answer refers to it: in UTF-8, a text that holds the probe's action
/// as an element's content and the id behind the first `MessageID` is answered with a match that tells
/// the device and has that id, escaped, as what it relates to. A text without the action is not
/// answered.
pub proof fn law_probe_is_answered_with_its_id(
    before: Seq<char>,
    attributes: Seq<char>,
    id: Seq<char>,
    after: Seq<char>,
    xaddr: Seq<char>,
    device_addr: Seq<char>,
)
    requires
        lacks(attributes, '>'),
        lacks(id, '<'),
        id.len() > 0,
        !white_space(id[0]),
        !white_space(id.last()),
        find_from(before + "MessageID"@ + attributes + seq!['>'] + id + seq!['<'] + after, "MessageID"@, 0) == Some(
            before.len() as int,
        ),
    ensures
        ({
            let text = before + "MessageID"@ + attributes + seq!['>'] + id + seq!['<'] + after;
            let asks = contains_text(text, ">http://schemas.xmlsoap.org/ws/2005/04/discovery/Probe<"@);
            let reply = answer_to(encode_utf8(text), xaddr, device_addr);
            &&& asks ==> (reply matches Some(t) && tells(t, "<wsa:RelatesTo>"@, escaped(id), "</wsa:RelatesTo>"@)
                && tells_device(t, xaddr, device_addr))
            &&& !asks ==> reply is None
        }),
{
    let text = before + "MessageID"@ + attributes + seq!['>'] + id + seq!['<'] + after;
    encode_utf8_valid_utf8(text);
    encode_utf8_decode_utf8(text);
    reveal_strlit(">");
    reveal_strlit("<");
    reveal_strlit("MessageID");
    reveal_strlit("http://schemas.xmlsoap.org/ws/2005/04/discovery/Probe");
    reveal_strlit(">http://schemas.xmlsoap.org/ws/2005/04/discovery/Probe<");
    assert(probe_mark() =~= ">http://schemas.xmlsoap.org/ws/2005/04/discovery/Probe<"@);
    let name = "MessageID"@;
    let n = before.len() as int;
    let front = name + attributes;
    assert(forall|i: int| 0 <= i < name.len() ==> name[i] != '>');
    assert forall|i: int| 0 <= i < front.len() implies #[trigger] front[i] != '>' by {
        if i >= name.len() {
            assert(front[i] == attributes[i - name.len()]);
        }
    }
    let tail = id + seq!['<'] + after;
    assert(text.skip(n) =~= front + seq!['>'] + tail);
    lemma_position(front, '>', tail);
    let gt = front.len() as int;
    assert(text.skip(n + gt + 1) =~= tail);
    lemma_position(id, '<', after);
    assert(tail.take(id.len() as int) =~= id);
    lemma_trimmed_already(id);
    assert(message_id_in(text) == id);
    lemma_relation_told(xaddr, device_addr, id);
    law_messages_tell_the_device(xaddr, device_addr, Some(id));
}

/// Every announcement and every answer tells what can be had of the device: that it streams video, what it
/// is made as and what it is called; it goes to whoever listens for discovery, and declares its prefixes.
pub proof fn law_messages_tell_the_scopes(xaddr: Seq<char>, device_addr: Seq<char>, relates_to: Option<Seq<char>>)
    ensures
        ({
            let found = probe_match(xaddr, device_addr, relates_to);
            let hello = notice(ACTION_HELLO@, "wsdiscovery:Hello"@, xaddr, device_addr);
            let bye = notice(ACTION_BYE@, "wsdiscovery:Bye"@, xaddr, device_addr);
            &&& tells_scopes(found) && tells_scopes(hello) && tells_scopes(bye)
        }),
{
    let lines = device_lines(xaddr, device_addr);
    lemma_scope_lines(xaddr, device_addr);
    let word = scopes_element();
    lemma_block_contains("wsdiscovery:ProbeMatch"@, lines, word);
    let inner = block_text("wsdiscovery:ProbeMatch"@, lines);
    lemma_block_contains("wsdiscovery:ProbeMatches"@, inner, word);
    lemma_whole_message(ACTION_PROBE_MATCH@, relation(relates_to), block_text("wsdiscovery:ProbeMatches"@, inner));
    lemma_padded_block("wsdiscovery:Hello"@, lines, word);
    lemma_padded_block("wsdiscovery:Bye"@, lines, word);
    lemma_whole_message(
        ACTION_HELLO@,
        Seq::empty(),
        block_text("wsdiscovery:Hello"@, "\n"@ + lines + "\n"@),
    );
    lemma_whole_message(ACTION_BYE@, Seq::empty(), block_text("wsdiscovery:Bye"@, "\n"@ + lines + "\n"@));
}

/// The element of the scopes.
pub open spec fn scopes_element() -> Seq<char> {
    "<wsdiscovery:Scopes>"@ + ("onvif://www.onvif.org/Profile/Streaming"@ + " "@ + "onvif://www.onvif.org/hardware/UVC-G5-Bullet"@ + " "@
        + "onvif://www.onvif.org/name/flvproxy"@) + "</wsdiscovery:Scopes>"@
}

/// Whether a message tells the scopes, says where it goes, and declares its prefixes.
pub open spec fn tells_scopes(text: Seq<char>) -> bool {
    &&& contains_text(text, scopes_element())
    &&& tells(text, "<wsa:To>"@, "urn:docs-oasis-open-org:ws-sx:ws-discovery"@, "</wsa:To>"@)
    &&& contains_text(text, "s"@ + "=\""@ + "http://www.w3.org/2003/05/soap-envelope"@ + "\""@)
    &&& contains_text(text, "wsa"@ + "=\""@ + "http://schemas.xmlsoap.org/ws/2004/08/addressing"@ + "\""@)
    &&& contains_text(text, "wsdiscovery"@ + "=\""@ + "http://schemas.xmlsoap.org/ws/2005/04/discovery"@ + "\""@)
}

proof fn lemma_scope_lines(xaddr: Seq<char>, device_addr: Seq<char>)
    ensures
        contains_text(device_lines(xaddr, device_addr), scopes_element()),
{
    reveal_strlit("wsdiscovery:Scopes");
    reveal_strlit("<wsdiscovery:Scopes>");
    reveal_strlit("</wsdiscovery:Scopes>");
    assert("<wsdiscovery:Scopes>"@ =~= seq!['<'] + "wsdiscovery:Scopes"@ + seq!['>']);
    assert("</wsdiscovery:Scopes>"@ =~= seq!['<', '/'] + "wsdiscovery:Scopes"@ + seq!['>']);
    let types = DEVICE_TYPE@ + " "@ + DEVICE_TYPE_DEVICE@;
    let scopes = SCOPE_STREAMING@ + " "@ + SCOPE_HARDWARE@ + " "@ + SCOPE_NAME@;
    let a = block_text("wsa:EndpointReference"@, element_line("wsa:Address"@, escaped(device_addr)));
    let b = element_line("wsdiscovery:Types"@, types);
    let c = element_line("wsdiscovery:Scopes"@, scopes);
    let d = element_line("wsdiscovery:XAddrs"@, escaped(xaddr));
    let e = element_line("wsdiscovery:MetadataVersion"@, "1"@);
    let word = scopes_element();
    lemma_element_is("wsdiscovery:Scopes"@, "<wsdiscovery:Scopes>"@, "</wsdiscovery:Scopes>"@, scopes);
    lemma_contains_sum(a + b, c, word);
    lemma_contains_sum(a + b + c, d, word);
    lemma_contains_sum(a + b + c + d, e, word);
}

proof fn lemma_whole_message(action: Seq<char>, relates: Seq<char>, body: Seq<char>)
    requires
        contains_text(body, scopes_element()),
    ensures
        tells_scopes(envelope(action, relates, body)),
{
    lemma_envelope_contains(action, relates, body, scopes_element());
    reveal_strlit("wsa:To");
    reveal_strlit("<wsa:To>");
    reveal_strlit("</wsa:To>");
    assert("<wsa:To>"@ =~= seq!['<'] + "wsa:To"@ + seq!['>']);
    assert("</wsa:To>"@ =~= seq!['<', '/'] + "wsa:To"@ + seq!['>']);
    let everyone = "urn:docs-oasis-open-org:ws-sx:ws-discovery"@;
    lemma_element_is("wsa:To"@, "<wsa:To>"@, "</wsa:To>"@, everyone);
    let to = "<wsa:To>"@ + everyone + "</wsa:To>"@;
    let front = element_line("wsa:Action"@, action) + relates + "\n"@;
    let line = element_line("wsa:To"@, everyone);
    lemma_contains_sum(front, line, to);
    lemma_contains_sum(
        front + line,
        "<wsdiscovery:AppSequence InstanceId=\"1\" MessageNumber=\"1\"/>\n"@,
        to,
    );
    lemma_envelope_contains(action, relates, body, to);
    let s = namespace_text("s"@, NS_ENVELOPE@);
    let w = namespace_text("wsa"@, NS_ADDRESSING@);
    let d = namespace_text("wsdiscovery"@, NS_DISCOVERY@);
    let ws = "s"@ + "=\""@ + NS_ENVELOPE@ + "\""@;
    let ww = "wsa"@ + "=\""@ + NS_ADDRESSING@ + "\""@;
    let wd = "wsdiscovery"@ + "=\""@ + NS_DISCOVERY@ + "\""@;
    lemma_declaration("s"@, NS_ENVELOPE@);
    lemma_declaration("wsa"@, NS_ADDRESSING@);
    lemma_declaration("wsdiscovery"@, NS_DISCOVERY@);
    lemma_contains_sum(s, w, ws);
    lemma_contains_sum(s, w, ww);
    lemma_contains_sum(s + w, d, ws);
    lemma_contains_sum(s + w, d, ww);
    lemma_contains_sum(s + w, d, wd);
    lemma_declared_in(action, relates, body, ws);
    lemma_declared_in(action, relates, body, ww);
    lemma_declared_in(action, relates, body, wd);
}

proof fn lemma_declared_in(action: Seq<char>, relates: Seq<char>, body: Seq<char>, word: Seq<char>)
    requires
        contains_text(
            namespace_text("s"@, NS_ENVELOPE@) + namespace_text("wsa"@, NS_ADDRESSING@) + namespace_text(
                "wsdiscovery"@,
                NS_DISCOVERY@,
            ),
            word,
        ),
    ensures
        contains_text(envelope(action, relates, body), word),
{
    let attributes = namespace_text("s"@, NS_ENVELOPE@) + namespace_text("wsa"@, NS_ADDRESSING@) + namespace_text(
        "wsdiscovery"@,
        NS_DISCOVERY@,
    );
    let inner = "\n"@ + block_text("s:Header"@, header_lines(action, relates)) + block_text("s:Body"@, body);
    lemma_attributes_contain("s:Envelope"@, attributes, inner, word);
    lemma_contains_sum(
        "<?xml version=\"1.0\" encoding=\"UTF-8\"?>\n"@,
        element_with("s:Envelope"@, attributes, inner),
        word,
    );
}

/// A datagram that is no text is not answered, and a question without an id is answered with a match that
/// relates to nothing.
pub proof fn law_other_datagrams(datagram: Seq<u8>, xaddr: Seq<char>, device_addr: Seq<char>)
    ensures
        !valid_utf8(datagram) ==> answer_to(datagram, xaddr, device_addr) is None,
        valid_utf8(datagram) && contains_text(
            decode_utf8(datagram),
            ">http://schemas.xmlsoap.org/ws/2005/04/discovery/Probe<"@,
        ) && !contains_text(decode_utf8(datagram), "MessageID"@) ==> answer_to(datagram, xaddr, device_addr) == Some(
            probe_match(xaddr, device_addr, None),
        ),
{
    reveal_strlit(">");
    reveal_strlit("<");
    reveal_strlit("http://schemas.xmlsoap.org/ws/2005/04/discovery/Probe");
    reveal_strlit(">http://schemas.xmlsoap.org/ws/2005/04/discovery/Probe<");
    assert(probe_mark() =~= ">http://schemas.xmlsoap.org/ws/2005/04/discovery/Probe<"@);
}

} // verus!
