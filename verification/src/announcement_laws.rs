//! How announcements and leave-takings resemble each other.

use crate::onvif_discovery::{
    device_lines, envelope, header_lines, notice, ACTION_BYE, ACTION_HELLO, DEVICE_TYPE, DEVICE_TYPE_DEVICE,
    NS_DISCOVERY, SCOPE_HARDWARE, SCOPE_NAME, SCOPE_STREAMING,
};
use crate::text::contains_text;
use crate::text_laws::{
    becomes, closing, keeps, keeps_tags, lacks, lemma_block_becomes, lemma_element_becomes, lemma_escaped_content_keeps,
    lemma_escaped_text_keeps_tags, lemma_kept_text_lacks_word, lemma_lacking_keeps, lemma_lacking_tags_keep,
    lemma_lacks_sum, lemma_line_becomes, lemma_line_keeps, lemma_other_tags_keep, lemma_other_word_keeps, lemma_then,
    lemma_whole, lemma_word_becomes, opening, replaced,
};
use crate::xml::{
    block_text, element_line, element_with, escaped, namespace_text, NS_ADDRESSING, NS_ENVELOPE,
};
use vstd::prelude::*;

verus! {

spec fn namespaces() -> Seq<char> {
    namespace_text("s"@, NS_ENVELOPE@) + namespace_text("wsa"@, NS_ADDRESSING@) + namespace_text(
        "wsdiscovery"@,
        NS_DISCOVERY@,
    )
}

spec fn types() -> Seq<char> {
    DEVICE_TYPE@ + " "@ + DEVICE_TYPE_DEVICE@
}

spec fn scopes() -> Seq<char> {
    SCOPE_STREAMING@ + " "@ + SCOPE_HARDWARE@ + " "@ + SCOPE_NAME@
}

/// Whether what all messages have around their action and their body stays as it is.
spec fn keeps_frame(word: Seq<char>, by: Seq<char>) -> bool {
    &&& keeps("\n"@, word, by)
    &&& keeps("<?xml version=\"1.0\" encoding=\"UTF-8\"?>\n"@, word, by)
    &&& keeps("<wsdiscovery:AppSequence InstanceId=\"1\" MessageNumber=\"1\"/>\n"@, word, by)
    &&& keeps("urn:docs-oasis-open-org:ws-sx:ws-discovery"@, word, by)
    &&& keeps(opening("s:Envelope"@, namespaces()), word, by)
    &&& keeps(closing("s:Envelope"@), word, by)
    &&& keeps_tags("s:Header"@, word, by)
    &&& keeps_tags("s:Body"@, word, by)
    &&& keeps_tags("wsa:Action"@, word, by)
    &&& keeps_tags("wsa:To"@, word, by)
}

/// Whether what the device tells of itself stays as it is.
spec fn keeps_device(word: Seq<char>, by: Seq<char>) -> bool {
    &&& keeps_tags("wsa:EndpointReference"@, word, by)
    &&& keeps_tags("wsa:Address"@, word, by)
    &&& keeps_tags("wsdiscovery:Types"@, word, by)
    &&& keeps_tags("wsdiscovery:Scopes"@, word, by)
    &&& keeps_tags("wsdiscovery:XAddrs"@, word, by)
    &&& keeps_tags("wsdiscovery:MetadataVersion"@, word, by)
    &&& keeps(types(), word, by)
    &&& keeps(scopes(), word, by)
    &&& keeps("1"@, word, by)
}

proof fn lemma_device_keeps(xaddr: Seq<char>, device_addr: Seq<char>, word: Seq<char>, by: Seq<char>)
    requires
        keeps_frame(word, by),
        keeps_device(word, by),
        keeps(escaped(xaddr) + closing("wsdiscovery:XAddrs"@), word, by),
        keeps(escaped(device_addr) + closing("wsa:Address"@), word, by),
    ensures
        keeps(device_lines(xaddr, device_addr), word, by),
{
    let address = element_line("wsa:Address"@, escaped(device_addr));
    let a = block_text("wsa:EndpointReference"@, address);
    let b = element_line("wsdiscovery:Types"@, types());
    let c = element_line("wsdiscovery:Scopes"@, scopes());
    let d = element_line("wsdiscovery:XAddrs"@, escaped(xaddr));
    let e = element_line("wsdiscovery:MetadataVersion"@, "1"@);
    lemma_line_becomes("wsa:Address"@, escaped(device_addr), escaped(device_addr), word, by);
    lemma_block_becomes("wsa:EndpointReference"@, "wsa:EndpointReference"@, address, address, word, by);
    lemma_line_keeps("wsdiscovery:Types"@, types(), word, by);
    lemma_line_keeps("wsdiscovery:Scopes"@, scopes(), word, by);
    lemma_line_becomes("wsdiscovery:XAddrs"@, escaped(xaddr), escaped(xaddr), word, by);
    lemma_line_keeps("wsdiscovery:MetadataVersion"@, "1"@, word, by);
    lemma_then(a, a, b, b, word, by);
    lemma_then(a + b, a + b, c, c, word, by);
    lemma_then(a + b + c, a + b + c, d, d, word, by);
    lemma_then(a + b + c + d, a + b + c + d, e, e, word, by);
}

proof fn lemma_header_becomes(action: Seq<char>, action2: Seq<char>, word: Seq<char>, by: Seq<char>)
    requires
        keeps_frame(word, by),
        becomes(action, action2, word, by),
    ensures
        becomes(header_lines(action, Seq::empty()), header_lines(action2, Seq::empty()), word, by),
{
    let none = Seq::<char>::empty();
    let a = element_line("wsa:Action"@, action);
    let a2 = element_line("wsa:Action"@, action2);
    let to = element_line("wsa:To"@, "urn:docs-oasis-open-org:ws-sx:ws-discovery"@);
    let sequence = "<wsdiscovery:AppSequence InstanceId=\"1\" MessageNumber=\"1\"/>\n"@;
    lemma_then(action, action2, closing("wsa:Action"@), closing("wsa:Action"@), word, by);
    lemma_line_becomes("wsa:Action"@, action, action2, word, by);
    lemma_line_keeps("wsa:To"@, "urn:docs-oasis-open-org:ws-sx:ws-discovery"@, word, by);
    assert(a + none =~= a && a2 + none =~= a2);
    lemma_then(a, a2, "\n"@, "\n"@, word, by);
    lemma_then(a + "\n"@, a2 + "\n"@, to, to, word, by);
    lemma_then(a + "\n"@ + to, a2 + "\n"@ + to, sequence, sequence, word, by);
}

proof fn lemma_envelope_becomes(
    action: Seq<char>,
    action2: Seq<char>,
    body: Seq<char>,
    body2: Seq<char>,
    word: Seq<char>,
    by: Seq<char>,
)
    requires
        keeps_frame(word, by),
        becomes(action, action2, word, by),
        becomes(body, body2, word, by),
    ensures
        becomes(envelope(action, Seq::empty(), body), envelope(action2, Seq::empty(), body2), word, by),
{
    let h = block_text("s:Header"@, header_lines(action, Seq::empty()));
    let h2 = block_text("s:Header"@, header_lines(action2, Seq::empty()));
    let t = block_text("s:Body"@, body);
    let t2 = block_text("s:Body"@, body2);
    lemma_header_becomes(action, action2, word, by);
    lemma_block_becomes(
        "s:Header"@,
        "s:Header"@,
        header_lines(action, Seq::empty()),
        header_lines(action2, Seq::empty()),
        word,
        by,
    );
    lemma_block_becomes("s:Body"@, "s:Body"@, body, body2, word, by);
    lemma_then("\n"@, "\n"@, h, h2, word, by);
    lemma_then("\n"@ + h, "\n"@ + h2, t, t2, word, by);
    let inner = "\n"@ + h + t;
    let inner2 = "\n"@ + h2 + t2;
    lemma_then(inner, inner2, closing("s:Envelope"@), closing("s:Envelope"@), word, by);
    lemma_element_becomes("s:Envelope"@, "s:Envelope"@, namespaces(), inner, inner2, word, by);
    let first = "<?xml version=\"1.0\" encoding=\"UTF-8\"?>\n"@;
    lemma_then(
        first,
        first,
        element_with("s:Envelope"@, namespaces(), inner),
        element_with("s:Envelope"@, namespaces(), inner2),
        word,
        by,
    );
}

/// What an announcement becomes, if its action and its name become others.
proof fn lemma_notice_becomes(
    action: Seq<char>,
    action2: Seq<char>,
    name: Seq<char>,
    name2: Seq<char>,
    xaddr: Seq<char>,
    device_addr: Seq<char>,
    word: Seq<char>,
    by: Seq<char>,
)
    requires
        keeps_frame(word, by),
        becomes(action, action2, word, by),
        becomes(opening(name, Seq::empty()), opening(name2, Seq::empty()), word, by),
        becomes(closing(name), closing(name2), word, by),
        keeps(device_lines(xaddr, device_addr), word, by),
    ensures
        becomes(
            notice(action, name, xaddr, device_addr),
            notice(action2, name2, xaddr, device_addr),
            word,
            by,
        ),
{
    let lines = device_lines(xaddr, device_addr);
    lemma_then("\n"@, "\n"@, lines, lines, word, by);
    lemma_then("\n"@ + lines, "\n"@ + lines, "\n"@, "\n"@, word, by);
    let content = "\n"@ + lines + "\n"@;
    lemma_block_becomes(name, name2, content, content, word, by);
    lemma_envelope_becomes(action, action2, block_text(name, content), block_text(name2, content), word, by);
}

/// The names of elements hold no capital H but for the header's, and no bracket.
proof fn lemma_names()
    ensures
        lacks("s:Body"@, 'H'),
        lacks("wsa:Action"@, 'H'),
        lacks("wsa:To"@, 'H'),
        lacks("wsa:EndpointReference"@, 'H'),
        lacks("wsa:Address"@, 'H'),
        lacks("wsdiscovery:Types"@, 'H'),
        lacks("wsdiscovery:Scopes"@, 'H'),
        lacks("wsdiscovery:XAddrs"@, 'H'),
        lacks("wsdiscovery:MetadataVersion"@, 'H'),
        lacks("s:Envelope"@, 'H'),
        lacks("s:Header"@, '<'),
        lacks("s:Body"@, '<'),
        lacks("wsa:Action"@, '<'),
        lacks("wsa:To"@, '<'),
        lacks("wsa:EndpointReference"@, '<'),
        lacks("wsa:Address"@, '<'),
        lacks("wsdiscovery:Types"@, '<'),
        lacks("wsdiscovery:Scopes"@, '<'),
        lacks("wsdiscovery:XAddrs"@, '<'),
        lacks("wsdiscovery:MetadataVersion"@, '<'),
        lacks("s:Envelope"@, '<'),
{
    reveal_strlit("s:Header");
    reveal_strlit("s:Body");
    reveal_strlit("wsa:Action");
    reveal_strlit("wsa:To");
    reveal_strlit("wsa:EndpointReference");
    reveal_strlit("wsa:Address");
    reveal_strlit("wsdiscovery:Types");
    reveal_strlit("wsdiscovery:Scopes");
    reveal_strlit("wsdiscovery:XAddrs");
    reveal_strlit("wsdiscovery:MetadataVersion");
    reveal_strlit("s:Envelope");
}

proof fn lemma_namespace_lacks(prefix: Seq<char>, uri: Seq<char>, c: char)
    requires
        lacks(prefix, c),
        lacks(uri, c),
        c == 'H' || c == '<',
    ensures
        lacks(namespace_text(prefix, uri), c),
{
    reveal_strlit(" xmlns:");
    reveal_strlit("=\"");
    reveal_strlit("\"");
    lemma_lacks_sum(" xmlns:"@, prefix, c);
    lemma_lacks_sum(" xmlns:"@ + prefix, "=\""@, c);
    lemma_lacks_sum(" xmlns:"@ + prefix + "=\""@, uri, c);
    lemma_lacks_sum(" xmlns:"@ + prefix + "=\""@ + uri, "\""@, c);
}

/// The fixed texts hold no capital H and no bracket.
proof fn lemma_texts(c: char)
    requires
        c == 'H' || c == '<',
    ensures
        lacks(namespaces(), c),
        lacks(types(), c),
        lacks(scopes(), c),
        lacks("1"@, c),
        lacks("\n"@, c),
        lacks("urn:docs-oasis-open-org:ws-sx:ws-discovery"@, c),
{
    reveal_strlit("s");
    reveal_strlit("wsa");
    reveal_strlit("wsdiscovery");
    reveal_strlit("http://www.w3.org/2003/05/soap-envelope");
    reveal_strlit("http://schemas.xmlsoap.org/ws/2004/08/addressing");
    reveal_strlit("http://schemas.xmlsoap.org/ws/2005/04/discovery");
    lemma_namespace_lacks("s"@, NS_ENVELOPE@, c);
    lemma_namespace_lacks("wsa"@, NS_ADDRESSING@, c);
    lemma_namespace_lacks("wsdiscovery"@, NS_DISCOVERY@, c);
    lemma_lacks_sum(namespace_text("s"@, NS_ENVELOPE@), namespace_text("wsa"@, NS_ADDRESSING@), c);
    lemma_lacks_sum(
        namespace_text("s"@, NS_ENVELOPE@) + namespace_text("wsa"@, NS_ADDRESSING@),
        namespace_text("wsdiscovery"@, NS_DISCOVERY@),
        c,
    );
    lemma_more_texts(c);
    reveal_strlit("1");
    reveal_strlit("\n");
    reveal_strlit("urn:docs-oasis-open-org:ws-sx:ws-discovery");
}

proof fn lemma_more_texts(c: char)
    requires
        c == 'H' || c == '<',
    ensures
        lacks(types(), c),
        lacks(scopes(), c),
{
    reveal_strlit("tns:NetworkVideoTransmitter");
    reveal_strlit("tds:Device");
    reveal_strlit("onvif://www.onvif.org/Profile/Streaming");
    reveal_strlit("onvif://www.onvif.org/hardware/UVC-G5-Bullet");
    reveal_strlit("onvif://www.onvif.org/name/flvproxy");
    reveal_strlit(" ");
    assert(lacks(DEVICE_TYPE@, c) && lacks(DEVICE_TYPE_DEVICE@, c) && lacks(" "@, c));
    assert(lacks(SCOPE_STREAMING@, c) && lacks(SCOPE_HARDWARE@, c) && lacks(SCOPE_NAME@, c));
    lemma_lacks_sum(DEVICE_TYPE@, " "@, c);
    lemma_lacks_sum(DEVICE_TYPE@ + " "@, DEVICE_TYPE_DEVICE@, c);
    lemma_lacks_sum(SCOPE_STREAMING@, " "@, c);
    lemma_lacks_sum(SCOPE_STREAMING@ + " "@, SCOPE_HARDWARE@, c);
    lemma_lacks_sum(SCOPE_STREAMING@ + " "@ + SCOPE_HARDWARE@, " "@, c);
    lemma_lacks_sum(SCOPE_STREAMING@ + " "@ + SCOPE_HARDWARE@ + " "@, SCOPE_NAME@, c);
}

/// What the word of an announcement is made of.
proof fn lemma_hello()
    ensures
        "Hello"@ == seq!['H', 'e', 'l', 'l', 'o'],
        lacks("Hello"@, '&'),
        lacks("Hello"@, ';'),
        lacks("Hello"@, '<'),
{
    reveal_strlit("Hello");
    assert("Hello"@ =~= seq!['H', 'e', 'l', 'l', 'o']);
}

/// The tags of the header do not hold the word of an announcement.
proof fn lemma_header_tags(by: Seq<char>)
    ensures
        keeps_tags("s:Header"@, "Hello"@, by),
{
    let word = "Hello"@;
    let own = seq!['H', 'e', 'a', 'd', 'e', 'r', '>'];
    let open = seq!['<', 's', ':'];
    let close = seq!['<', '/', 's', ':'];
    lemma_hello();
    lemma_other_word_keeps(own, word, 2, by);
    lemma_lacking_keeps(open, word, by);
    lemma_lacking_keeps(close, word, by);
    lemma_then(open, open, own, own, word, by);
    lemma_then(close, close, own, own, word, by);
    reveal_strlit("s:Header");
    reveal_strlit("<");
    reveal_strlit("</");
    reveal_strlit(">");
    assert(opening("s:Header"@, Seq::empty()) =~= open + own);
    assert(closing("s:Header"@) =~= close + own);
}

/// The word of an announcement is no part of the frame.
proof fn lemma_hello_frame(by: Seq<char>)
    ensures
        keeps_frame("Hello"@, by),
        keeps_device("Hello"@, by),
{
    let word = "Hello"@;
    let none = Seq::<char>::empty();
    let first = "<?xml version=\"1.0\" encoding=\"UTF-8\"?>\n"@;
    let sequence = "<wsdiscovery:AppSequence InstanceId=\"1\" MessageNumber=\"1\"/>\n"@;
    lemma_hello();
    lemma_names();
    lemma_texts('H');
    lemma_header_tags(by);
    lemma_lacking_tags_keep("s:Envelope"@, namespaces(), word, by);
    lemma_lacking_tags_keep("s:Body"@, none, word, by);
    lemma_lacking_tags_keep("wsa:Action"@, none, word, by);
    lemma_lacking_tags_keep("wsa:To"@, none, word, by);
    lemma_lacking_tags_keep("wsa:EndpointReference"@, none, word, by);
    lemma_lacking_tags_keep("wsa:Address"@, none, word, by);
    lemma_lacking_tags_keep("wsdiscovery:Types"@, none, word, by);
    lemma_lacking_tags_keep("wsdiscovery:Scopes"@, none, word, by);
    lemma_lacking_tags_keep("wsdiscovery:XAddrs"@, none, word, by);
    lemma_lacking_tags_keep("wsdiscovery:MetadataVersion"@, none, word, by);
    assert(lacks(first, 'H')) by {
        reveal_strlit("<?xml version=\"1.0\" encoding=\"UTF-8\"?>\n");
    }
    assert(lacks(sequence, 'H')) by {
        reveal_strlit("<wsdiscovery:AppSequence InstanceId=\"1\" MessageNumber=\"1\"/>\n");
    }
    lemma_lacking_keeps(first, word, by);
    lemma_lacking_keeps(sequence, word, by);
    lemma_lacking_keeps("\n"@, word, by);
    lemma_lacking_keeps("1"@, word, by);
    lemma_lacking_keeps("urn:docs-oasis-open-org:ws-sx:ws-discovery"@, word, by);
    lemma_lacking_keeps(types(), word, by);
    lemma_lacking_keeps(scopes(), word, by);
}

/// What the marks of an announcement become.
proof fn lemma_marks_become()
    ensures
        becomes(ACTION_HELLO@, ACTION_BYE@, "Hello"@, "Bye"@),
        becomes(
            opening("wsdiscovery:Hello"@, Seq::empty()),
            opening("wsdiscovery:Bye"@, Seq::empty()),
            "Hello"@,
            "Bye"@,
        ),
        becomes(closing("wsdiscovery:Hello"@), closing("wsdiscovery:Bye"@), "Hello"@, "Bye"@),
{
    let word = "Hello"@;
    let by = "Bye"@;
    lemma_hello();
    lemma_word_becomes(word, by);
    reveal_strlit("Bye");
    let uri = NS_DISCOVERY@ + "/"@;
    assert(lacks(uri, 'H') && ACTION_HELLO@ =~= uri + word && ACTION_BYE@ =~= uri + by) by {
        reveal_strlit("/");
        reveal_strlit("http://schemas.xmlsoap.org/ws/2005/04/discovery");
        reveal_strlit("http://schemas.xmlsoap.org/ws/2005/04/discovery/Hello");
        reveal_strlit("http://schemas.xmlsoap.org/ws/2005/04/discovery/Bye");
    }
    lemma_lacking_keeps(uri, word, by);
    lemma_then(uri, uri, word, by, word, by);
    let prefix = "wsdiscovery:"@;
    let open = "<"@ + prefix;
    let close = "</"@ + prefix;
    let end = ">"@;
    assert(lacks(open, 'H') && lacks(close, 'H') && lacks(end, 'H')) by {
        reveal_strlit("wsdiscovery:");
        reveal_strlit("<");
        reveal_strlit("</");
        reveal_strlit(">");
    }
    lemma_lacking_keeps(open, word, by);
    lemma_lacking_keeps(close, word, by);
    lemma_lacking_keeps(end, word, by);
    lemma_then(open, open, word, by, word, by);
    lemma_then(open + word, open + by, end, end, word, by);
    lemma_then(close, close, word, by, word, by);
    lemma_then(close + word, close + by, end, end, word, by);
    assert("wsdiscovery:Hello"@ =~= prefix + word && "wsdiscovery:Bye"@ =~= prefix + by) by {
        reveal_strlit("wsdiscovery:");
        reveal_strlit("wsdiscovery:Hello");
        reveal_strlit("wsdiscovery:Bye");
    }
    assert(opening("wsdiscovery:Hello"@, Seq::empty()) =~= open + word + end);
    assert(opening("wsdiscovery:Bye"@, Seq::empty()) =~= open + by + end);
    assert(closing("wsdiscovery:Hello"@) =~= close + word + end);
    assert(closing("wsdiscovery:Bye"@) =~= close + by + end);
}

/// A leave-taking is the announcement with its word replaced: the same device with the same
/// addresses, types and scopes.
pub proof fn law_goodbye_is_the_greeting_with_its_word_replaced(xaddr: Seq<char>, device_addr: Seq<char>)
    requires
        !contains_text(xaddr, "Hello"@),
        !contains_text(device_addr, "Hello"@),
    ensures
        notice(ACTION_BYE@, "wsdiscovery:Bye"@, xaddr, device_addr) == replaced(
            notice(ACTION_HELLO@, "wsdiscovery:Hello"@, xaddr, device_addr),
            "Hello"@,
            "Bye"@,
        ),
{
    let word = "Hello"@;
    let by = "Bye"@;
    lemma_hello();
    lemma_names();
    lemma_hello_frame(by);
    lemma_marks_become();
    lemma_escaped_content_keeps(xaddr, "wsdiscovery:XAddrs"@, word, by);
    lemma_escaped_content_keeps(device_addr, "wsa:Address"@, word, by);
    lemma_device_keeps(xaddr, device_addr, word, by);
    lemma_notice_becomes(
        ACTION_HELLO@,
        ACTION_BYE@,
        "wsdiscovery:Hello"@,
        "wsdiscovery:Bye"@,
        xaddr,
        device_addr,
        word,
        by,
    );
    lemma_whole(
        notice(ACTION_HELLO@, "wsdiscovery:Hello"@, xaddr, device_addr),
        notice(ACTION_BYE@, "wsdiscovery:Bye"@, xaddr, device_addr),
        word,
        by,
    );
}

/// The tag that relates an answer to its question.
pub open spec fn relation_tag() -> Seq<char> {
    "<wsa:RelatesTo>"@
}

/// No other tag is the one that relates an answer to its question.
proof fn lemma_relation_frame(by: Seq<char>)
    ensures
        keeps_frame(relation_tag(), by),
        keeps_device(relation_tag(), by),
{
    let word = relation_tag();
    let none = Seq::<char>::empty();
    let first = "<?xml version=\"1.0\" encoding=\"UTF-8\"?>\n"@;
    let sequence = "<wsdiscovery:AppSequence InstanceId=\"1\" MessageNumber=\"1\"/>\n"@;
    lemma_names();
    lemma_texts('<');
    lemma_name_starts();
    lemma_other_tags_keep("s:Envelope"@, namespaces(), word, 0, by);
    lemma_other_tags_keep("s:Header"@, none, word, 0, by);
    lemma_other_tags_keep("s:Body"@, none, word, 0, by);
    lemma_other_tags_keep("wsa:Action"@, none, word, 4, by);
    lemma_other_tags_keep("wsa:To"@, none, word, 4, by);
    lemma_other_tags_keep("wsa:EndpointReference"@, none, word, 4, by);
    lemma_other_tags_keep("wsa:Address"@, none, word, 4, by);
    lemma_other_tags_keep("wsdiscovery:Types"@, none, word, 2, by);
    lemma_other_tags_keep("wsdiscovery:Scopes"@, none, word, 2, by);
    lemma_other_tags_keep("wsdiscovery:XAddrs"@, none, word, 2, by);
    lemma_other_tags_keep("wsdiscovery:MetadataVersion"@, none, word, 2, by);
    assert(first.len() > 1 && first[1] == '?' && lacks(first.skip(1), '<')) by {
        reveal_strlit("<?xml version=\"1.0\" encoding=\"UTF-8\"?>\n");
    }
    assert(sequence.len() > 3 && sequence[3] == 'd' && lacks(sequence.skip(1), '<')) by {
        reveal_strlit("<wsdiscovery:AppSequence InstanceId=\"1\" MessageNumber=\"1\"/>\n");
    }
    lemma_other_word_keeps(first, word, 1, by);
    lemma_other_word_keeps(sequence, word, 3, by);
    lemma_lacking_keeps("\n"@, word, by);
    lemma_lacking_keeps("1"@, word, by);
    lemma_lacking_keeps("urn:docs-oasis-open-org:ws-sx:ws-discovery"@, word, by);
    lemma_lacking_keeps(types(), word, by);
    lemma_lacking_keeps(scopes(), word, by);
}

/// Where the names of elements differ from that of the relation.
proof fn lemma_name_starts()
    ensures
        relation_tag().len() == 15,
        relation_tag()[0] == '<',
        relation_tag()[1] == 'w',
        relation_tag()[3] == 'a',
        relation_tag()[5] == 'R',
        "s:Header"@.len() > 0 && "s:Header"@[0] == 's',
        "s:Body"@.len() > 0 && "s:Body"@[0] == 's',
        "wsa:Action"@.len() > 4 && "wsa:Action"@[4] == 'A',
        "wsa:To"@.len() > 4 && "wsa:To"@[4] == 'T',
        "wsa:EndpointReference"@.len() > 4 && "wsa:EndpointReference"@[4] == 'E',
        "wsa:Address"@.len() > 4 && "wsa:Address"@[4] == 'A',
        "wsdiscovery:Types"@.len() > 2 && "wsdiscovery:Types"@[2] == 'd',
        "wsdiscovery:Scopes"@.len() > 2 && "wsdiscovery:Scopes"@[2] == 'd',
        "wsdiscovery:XAddrs"@.len() > 2 && "wsdiscovery:XAddrs"@[2] == 'd',
        "wsdiscovery:MetadataVersion"@.len() > 2 && "wsdiscovery:MetadataVersion"@[2] == 'd',
        "s:Envelope"@.len() > 0 && "s:Envelope"@[0] == 's',
{
    reveal_strlit("<wsa:RelatesTo>");
    reveal_strlit("s:Header");
    reveal_strlit("s:Body");
    reveal_strlit("wsa:Action");
    reveal_strlit("wsa:To");
    reveal_strlit("wsa:EndpointReference");
    reveal_strlit("wsa:Address");
    reveal_strlit("wsdiscovery:Types");
    reveal_strlit("wsdiscovery:Scopes");
    reveal_strlit("wsdiscovery:XAddrs");
    reveal_strlit("wsdiscovery:MetadataVersion");
    reveal_strlit("s:Envelope");
}

/// Neither an announcement nor a leave-taking relates to a question, whatever the addresses hold.
pub proof fn law_notices_relate_to_no_question(xaddr: Seq<char>, device_addr: Seq<char>)
    ensures
        !contains_text(notice(ACTION_HELLO@, "wsdiscovery:Hello"@, xaddr, device_addr), relation_tag()),
        !contains_text(notice(ACTION_BYE@, "wsdiscovery:Bye"@, xaddr, device_addr), relation_tag()),
{
    let word = relation_tag();
    let none = Seq::<char>::empty();
    lemma_relation_frame(none);
    lemma_name_starts();
    lemma_escaped_text_keeps_tags(xaddr, "wsdiscovery:XAddrs"@, word, none);
    lemma_escaped_text_keeps_tags(device_addr, "wsa:Address"@, word, none);
    lemma_device_keeps(xaddr, device_addr, word, none);
    assert(lacks(ACTION_HELLO@, '<') && lacks(ACTION_BYE@, '<')) by {
        reveal_strlit("http://schemas.xmlsoap.org/ws/2005/04/discovery/Hello");
        reveal_strlit("http://schemas.xmlsoap.org/ws/2005/04/discovery/Bye");
    }
    lemma_lacking_keeps(ACTION_HELLO@, word, none);
    lemma_lacking_keeps(ACTION_BYE@, word, none);
    reveal_strlit("wsdiscovery:Hello");
    reveal_strlit("wsdiscovery:Bye");
    lemma_other_tags_keep("wsdiscovery:Hello"@, none, word, 2, none);
    lemma_other_tags_keep("wsdiscovery:Bye"@, none, word, 2, none);
    lemma_notice_becomes(
        ACTION_HELLO@,
        ACTION_HELLO@,
        "wsdiscovery:Hello"@,
        "wsdiscovery:Hello"@,
        xaddr,
        device_addr,
        word,
        none,
    );
    lemma_notice_becomes(
        ACTION_BYE@,
        ACTION_BYE@,
        "wsdiscovery:Bye"@,
        "wsdiscovery:Bye"@,
        xaddr,
        device_addr,
        word,
        none,
    );
    lemma_kept_text_lacks_word(notice(ACTION_HELLO@, "wsdiscovery:Hello"@, xaddr, device_addr), word);
    lemma_kept_text_lacks_word(notice(ACTION_BYE@, "wsdiscovery:Bye"@, xaddr, device_addr), word);
}

} // verus!
