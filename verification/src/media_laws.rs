//! How the answers that tell the stream's address resemble each other.

use crate::onvif_responses::{
    law_stream_address_holds_no_markup, media_message, media_uri, stream_address, OnvifView, NS_MEDIA, NS_SCHEMA,
    STREAM_URI_PATH, STREAM_URI_TIMEOUT,
};
use crate::text::{contains_text, decimal, is_digit, law_decimal_reads_back};
use crate::text_laws::{
    becomes, closing, keeps, keeps_tags, lacks, law_taking_out_counts, lemma_block_becomes, lemma_block_contains,
    lemma_contains_itself, lemma_contains_sum, lemma_element_becomes, lemma_element_contains, lemma_escaped_keeps,
    lemma_lacking_keeps, lemma_lacking_tags_keep, lemma_lacks_sum, lemma_line_keeps, lemma_other_tags_keep,
    lemma_other_word_keeps, lemma_then, lemma_whole, lemma_word_becomes, occurrences, opening, replaced,
};
use crate::xml::{block_text, element_line, element_text, element_with, escaped, is_markup, namespace_text, NS_ENVELOPE};
use vstd::prelude::*;

verus! {

spec fn namespaces() -> Seq<char> {
    namespace_text("s"@, NS_ENVELOPE@) + (namespace_text("trt"@, NS_MEDIA@) + namespace_text("tt"@, NS_SCHEMA@))
}

/// What follows the address.
spec fn limits() -> Seq<char> {
    element_line("tt:InvalidAfterConnect"@, "false"@) + element_line("tt:InvalidAfterReboot"@, "false"@)
        + element_line("tt:Timeout"@, STREAM_URI_TIMEOUT@)
}

/// The answer around the line with the address.
spec fn around(response: Seq<char>, line: Seq<char>) -> Seq<char> {
    media_message(block_text(response, block_text("trt:MediaUri"@, line + limits())))
}

proof fn lemma_around(response: Seq<char>, uri: Seq<char>)
    ensures
        media_uri(response, uri) == around(response, element_line("tt:Uri"@, uri)),
{
    let line = element_line("tt:Uri"@, uri);
    assert(line + element_line("tt:InvalidAfterConnect"@, "false"@) + element_line("tt:InvalidAfterReboot"@, "false"@)
        + element_line("tt:Timeout"@, STREAM_URI_TIMEOUT@) =~= line + limits());
}

/// Whether all but the response's name and the line with the address stays as it is.
spec fn keeps_frame(word: Seq<char>, by: Seq<char>) -> bool {
    &&& keeps("\n"@, word, by)
    &&& keeps("<?xml version=\"1.0\" encoding=\"UTF-8\"?>\n"@, word, by)
    &&& keeps("false"@, word, by)
    &&& keeps(STREAM_URI_TIMEOUT@, word, by)
    &&& keeps(opening("s:Envelope"@, namespaces()), word, by)
    &&& keeps(closing("s:Envelope"@), word, by)
    &&& keeps_tags("s:Body"@, word, by)
    &&& keeps_tags("trt:MediaUri"@, word, by)
    &&& keeps_tags("tt:InvalidAfterConnect"@, word, by)
    &&& keeps_tags("tt:InvalidAfterReboot"@, word, by)
    &&& keeps_tags("tt:Timeout"@, word, by)
}

/// What an answer becomes, if its name and the line with the address become others.
proof fn lemma_answer_becomes(
    response: Seq<char>,
    response2: Seq<char>,
    line: Seq<char>,
    line2: Seq<char>,
    word: Seq<char>,
    by: Seq<char>,
)
    requires
        keeps_frame(word, by),
        becomes(opening(response, Seq::empty()), opening(response2, Seq::empty()), word, by),
        becomes(closing(response), closing(response2), word, by),
        becomes(line, line2, word, by),
    ensures
        becomes(around(response, line), around(response2, line2), word, by),
{
    let a = element_line("tt:InvalidAfterConnect"@, "false"@);
    let b = element_line("tt:InvalidAfterReboot"@, "false"@);
    let c = element_line("tt:Timeout"@, STREAM_URI_TIMEOUT@);
    lemma_line_keeps("tt:InvalidAfterConnect"@, "false"@, word, by);
    lemma_line_keeps("tt:InvalidAfterReboot"@, "false"@, word, by);
    lemma_line_keeps("tt:Timeout"@, STREAM_URI_TIMEOUT@, word, by);
    lemma_then(a, a, b, b, word, by);
    lemma_then(a + b, a + b, c, c, word, by);
    lemma_then(line, line2, limits(), limits(), word, by);
    let media = block_text("trt:MediaUri"@, line + limits());
    let media2 = block_text("trt:MediaUri"@, line2 + limits());
    lemma_block_becomes("trt:MediaUri"@, "trt:MediaUri"@, line + limits(), line2 + limits(), word, by);
    let body = block_text(response, media);
    let body2 = block_text(response2, media2);
    lemma_block_becomes(response, response2, media, media2, word, by);
    lemma_block_becomes("s:Body"@, "s:Body"@, body, body2, word, by);
    let inner = "\n"@ + block_text("s:Body"@, body);
    let inner2 = "\n"@ + block_text("s:Body"@, body2);
    lemma_then("\n"@, "\n"@, block_text("s:Body"@, body), block_text("s:Body"@, body2), word, by);
    lemma_then(inner, inner2, closing("s:Envelope"@), closing("s:Envelope"@), word, by);
    lemma_element_becomes("s:Envelope"@, "s:Envelope"@, namespaces(), inner, inner2, word, by);
    let first = "<?xml version=\"1.0\" encoding=\"UTF-8\"?>\n"@;
    lemma_then(
        first,
        first,
        element_with("s:Envelope"@, namespaces(), inner),
        element_with("s:Envelope"@, namespaces(), inner2),
        word,
        by,
    );
}

proof fn lemma_namespace_lacks(prefix: Seq<char>, uri: Seq<char>, c: char)
    requires
        lacks(prefix, c),
        lacks(uri, c),
        c == 'G' || c == '<',
    ensures
        lacks(namespace_text(prefix, uri), c),
{
    reveal_strlit(" xmlns:");
    reveal_strlit("=\"");
    reveal_strlit("\"");
    lemma_lacks_sum(" xmlns:"@, prefix, c);
    lemma_lacks_sum(" xmlns:"@ + prefix, "=\""@, c);
    lemma_lacks_sum(" xmlns:"@ + prefix + "=\""@, uri, c);
    lemma_lacks_sum(" xmlns:"@ + prefix + "=\""@ + uri, "\""@, c);
}

/// The fixed texts hold no capital G and no bracket.
proof fn lemma_texts(c: char)
    requires
        c == 'G' || c == '<',
    ensures
        lacks(namespaces(), c),
        lacks("\n"@, c),
        lacks("false"@, c),
        lacks(STREAM_URI_TIMEOUT@, c),
{
    reveal_strlit("s");
    reveal_strlit("trt");
    reveal_strlit("tt");
    reveal_strlit("http://www.w3.org/2003/05/soap-envelope");
    reveal_strlit("http://www.onvif.org/ver10/media/wsdl");
    reveal_strlit("http://www.onvif.org/ver10/schema");
    let a = namespace_text("s"@, NS_ENVELOPE@);
    let b = namespace_text("trt"@, NS_MEDIA@);
    let d = namespace_text("tt"@, NS_SCHEMA@);
    lemma_namespace_lacks("s"@, NS_ENVELOPE@, c);
    lemma_namespace_lacks("trt"@, NS_MEDIA@, c);
    lemma_namespace_lacks("tt"@, NS_SCHEMA@, c);
    lemma_lacks_sum(b, d, c);
    lemma_lacks_sum(a, b + d, c);
    reveal_strlit("\n");
    reveal_strlit("false");
    reveal_strlit("PT60S");
}

/// The names of elements hold no capital G and no bracket.
proof fn lemma_names(c: char)
    requires
        c == 'G' || c == '<',
    ensures
        lacks("s:Body"@, c),
        lacks("trt:MediaUri"@, c),
        lacks("tt:InvalidAfterConnect"@, c),
        lacks("tt:InvalidAfterReboot"@, c),
        lacks("tt:Timeout"@, c),
        lacks("s:Envelope"@, c),
        lacks("tt:Uri"@, c),
{
    reveal_strlit("s:Body");
    reveal_strlit("trt:MediaUri");
    reveal_strlit("tt:InvalidAfterConnect");
    reveal_strlit("tt:InvalidAfterReboot");
    reveal_strlit("tt:Timeout");
    reveal_strlit("s:Envelope");
    reveal_strlit("tt:Uri");
}

/// What the name of the answer to `GetStreamUri` is made of.
proof fn lemma_response()
    ensures
        "GetStreamUriResponse"@.len() == 20,
        "GetStreamUriResponse"@[0] == 'G',
        lacks("GetStreamUriResponse"@, '&'),
        lacks("GetStreamUriResponse"@, ';'),
        lacks("GetStreamUriResponse"@, ':'),
{
    reveal_strlit("GetStreamUriResponse");
}

/// The name of the answer is no part of the frame.
proof fn lemma_response_frame(by: Seq<char>)
    ensures
        keeps_frame("GetStreamUriResponse"@, by),
        keeps_tags("tt:Uri"@, "GetStreamUriResponse"@, by),
{
    let word = "GetStreamUriResponse"@;
    let none = Seq::<char>::empty();
    let first = "<?xml version=\"1.0\" encoding=\"UTF-8\"?>\n"@;
    lemma_response();
    lemma_names('G');
    lemma_texts('G');
    lemma_lacking_tags_keep("s:Envelope"@, namespaces(), word, by);
    lemma_lacking_tags_keep("s:Body"@, none, word, by);
    lemma_lacking_tags_keep("trt:MediaUri"@, none, word, by);
    lemma_lacking_tags_keep("tt:InvalidAfterConnect"@, none, word, by);
    lemma_lacking_tags_keep("tt:InvalidAfterReboot"@, none, word, by);
    lemma_lacking_tags_keep("tt:Timeout"@, none, word, by);
    lemma_lacking_tags_keep("tt:Uri"@, none, word, by);
    assert(lacks(first, 'G')) by {
        reveal_strlit("<?xml version=\"1.0\" encoding=\"UTF-8\"?>\n");
    }
    lemma_lacking_keeps(first, word, by);
    lemma_lacking_keeps("\n"@, word, by);
    lemma_lacking_keeps("false"@, word, by);
    lemma_lacking_keeps(STREAM_URI_TIMEOUT@, word, by);
}

/// The stream's address does not hold the name of the answer, if the configured one does not.
proof fn lemma_address_keeps(c: OnvifView, by: Seq<char>)
    requires
        !contains_text(c.server_ip, "GetStreamUriResponse"@),
    ensures
        keeps(stream_address(c), "GetStreamUriResponse"@, by),
{
    let word = "GetStreamUriResponse"@;
    let ip = escaped(c.server_ip);
    let port = decimal(c.rtsp_port as nat);
    lemma_response();
    reveal_strlit("rtsp://");
    reveal_strlit(":");
    reveal_strlit("/stream");
    law_decimal_reads_back(c.rtsp_port as nat);
    assert forall|i: int| 0 <= i < port.len() implies #[trigger] port[i] != 'G' by {
        assert(is_digit(port[i]));
    }
    lemma_lacking_keeps("rtsp://"@, word, by);
    lemma_lacking_keeps(port, word, by);
    lemma_lacking_keeps(STREAM_URI_PATH@, word, by);
    lemma_escaped_keeps(c.server_ip, ':', word, by);
    let head = "rtsp://"@ + ip.push(':');
    lemma_then("rtsp://"@, "rtsp://"@, ip.push(':'), ip.push(':'), word, by);
    lemma_then(head, head, port, port, word, by);
    lemma_then(head + port, head + port, STREAM_URI_PATH@, STREAM_URI_PATH@, word, by);
    assert(stream_address(c) =~= head + port + STREAM_URI_PATH@);
}

/// What the tags of the answer become.
proof fn lemma_tags_become()
    ensures
        becomes(
            opening("trt:GetStreamUriResponse"@, Seq::empty()),
            opening("trt:GetSnapshotUriResponse"@, Seq::empty()),
            "GetStreamUriResponse"@,
            "GetSnapshotUriResponse"@,
        ),
        becomes(
            closing("trt:GetStreamUriResponse"@),
            closing("trt:GetSnapshotUriResponse"@),
            "GetStreamUriResponse"@,
            "GetSnapshotUriResponse"@,
        ),
{
    let word = "GetStreamUriResponse"@;
    let by = "GetSnapshotUriResponse"@;
    let prefix = "trt:"@;
    let open = "<"@ + prefix;
    let close = "</"@ + prefix;
    let end = ">"@;
    lemma_response();
    lemma_word_becomes(word, by);
    assert(lacks(open, 'G') && lacks(close, 'G') && lacks(end, 'G')) by {
        reveal_strlit("trt:");
        reveal_strlit("<");
        reveal_strlit("</");
        reveal_strlit(">");
    }
    lemma_lacking_keeps(open, word, by);
    lemma_lacking_keeps(close, word, by);
    lemma_lacking_keeps(end, word, by);
    lemma_then(open, open, word, by, word, by);
    lemma_then(open + word, open + by, end, end, word, by);
    lemma_then(close, close, word, by, word, by);
    lemma_then(close + word, close + by, end, end, word, by);
    assert("trt:GetStreamUriResponse"@ =~= prefix + word && "trt:GetSnapshotUriResponse"@ =~= prefix + by) by {
        reveal_strlit("trt:");
        reveal_strlit("GetStreamUriResponse");
        reveal_strlit("GetSnapshotUriResponse");
        reveal_strlit("trt:GetStreamUriResponse");
        reveal_strlit("trt:GetSnapshotUriResponse");
    }
    assert(opening("trt:GetStreamUriResponse"@, Seq::empty()) =~= open + word + end);
    assert(opening("trt:GetSnapshotUriResponse"@, Seq::empty()) =~= open + by + end);
    assert(closing("trt:GetStreamUriResponse"@) =~= close + word + end);
    assert(closing("trt:GetSnapshotUriResponse"@) =~= close + by + end);
}

/// The answer to `GetSnapshotUri` is the one to `GetStreamUri` with its name replaced.
pub proof fn law_snapshot_answer_is_the_stream_answer_renamed(c: OnvifView)
    requires
        !contains_text(c.server_ip, "GetStreamUriResponse"@),
    ensures
        media_uri("trt:GetSnapshotUriResponse"@, stream_address(c)) == replaced(
            media_uri("trt:GetStreamUriResponse"@, stream_address(c)),
            "GetStreamUriResponse"@,
            "GetSnapshotUriResponse"@,
        ),
{
    let word = "GetStreamUriResponse"@;
    let by = "GetSnapshotUriResponse"@;
    let uri = stream_address(c);
    let line = element_line("tt:Uri"@, uri);
    lemma_response_frame(by);
    lemma_tags_become();
    lemma_address_keeps(c, by);
    lemma_line_keeps("tt:Uri"@, uri, word, by);
    lemma_answer_becomes("trt:GetStreamUriResponse"@, "trt:GetSnapshotUriResponse"@, line, line, word, by);
    lemma_around("trt:GetStreamUriResponse"@, uri);
    lemma_around("trt:GetSnapshotUriResponse"@, uri);
    lemma_whole(
        media_uri("trt:GetStreamUriResponse"@, uri),
        media_uri("trt:GetSnapshotUriResponse"@, uri),
        word,
        by,
    );
}

/// The tag before the address.
pub open spec fn uri_tag() -> Seq<char> {
    "<tt:Uri>"@
}

/// Where the names of elements differ from that of the address.
proof fn lemma_name_starts()
    ensures
        uri_tag() == opening("tt:Uri"@, Seq::empty()),
        uri_tag().len() == 8,
        uri_tag()[0] == '<',
        uri_tag()[1] == 't',
        uri_tag()[2] == 't',
        uri_tag()[4] == 'U',
        "s:Body"@.len() > 0 && "s:Body"@[0] == 's',
        "trt:MediaUri"@.len() > 1 && "trt:MediaUri"@[1] == 'r',
        "tt:InvalidAfterConnect"@.len() > 3 && "tt:InvalidAfterConnect"@[3] == 'I',
        "tt:InvalidAfterReboot"@.len() > 3 && "tt:InvalidAfterReboot"@[3] == 'I',
        "tt:Timeout"@.len() > 3 && "tt:Timeout"@[3] == 'T',
        "s:Envelope"@.len() > 0 && "s:Envelope"@[0] == 's',
        "trt:GetStreamUriResponse"@.len() > 1 && "trt:GetStreamUriResponse"@[1] == 'r',
        "trt:GetSnapshotUriResponse"@.len() > 1 && "trt:GetSnapshotUriResponse"@[1] == 'r',
        lacks("trt:GetStreamUriResponse"@, '<'),
        lacks("trt:GetSnapshotUriResponse"@, '<'),
{
    reveal_strlit("<tt:Uri>");
    reveal_strlit("tt:Uri");
    reveal_strlit("<");
    reveal_strlit(">");
    assert(uri_tag() =~= opening("tt:Uri"@, Seq::empty()));
    reveal_strlit("s:Body");
    reveal_strlit("trt:MediaUri");
    reveal_strlit("tt:InvalidAfterConnect");
    reveal_strlit("tt:InvalidAfterReboot");
    reveal_strlit("tt:Timeout");
    reveal_strlit("s:Envelope");
    reveal_strlit("trt:GetStreamUriResponse");
    reveal_strlit("trt:GetSnapshotUriResponse");
}

/// No other tag of the frame is the one before the address.
proof fn lemma_uri_frame()
    ensures
        keeps_frame(uri_tag(), Seq::empty()),
        keeps_tags("trt:GetStreamUriResponse"@, uri_tag(), Seq::empty()),
        keeps_tags("trt:GetSnapshotUriResponse"@, uri_tag(), Seq::empty()),
        keeps(closing("tt:Uri"@), uri_tag(), Seq::empty()),
{
    let word = uri_tag();
    let none = Seq::<char>::empty();
    let first = "<?xml version=\"1.0\" encoding=\"UTF-8\"?>\n"@;
    lemma_names('<');
    lemma_texts('<');
    lemma_name_starts();
    lemma_other_tags_keep("s:Envelope"@, namespaces(), word, 0, none);
    lemma_other_tags_keep("s:Body"@, none, word, 0, none);
    lemma_other_tags_keep("trt:MediaUri"@, none, word, 1, none);
    lemma_other_tags_keep("tt:InvalidAfterConnect"@, none, word, 3, none);
    lemma_other_tags_keep("tt:InvalidAfterReboot"@, none, word, 3, none);
    lemma_other_tags_keep("tt:Timeout"@, none, word, 3, none);
    lemma_other_tags_keep("trt:GetStreamUriResponse"@, none, word, 1, none);
    lemma_other_tags_keep("trt:GetSnapshotUriResponse"@, none, word, 1, none);
    assert(first.len() > 1 && first[1] == '?' && lacks(first.skip(1), '<')) by {
        reveal_strlit("<?xml version=\"1.0\" encoding=\"UTF-8\"?>\n");
    }
    lemma_other_word_keeps(first, word, 1, none);
    lemma_lacking_keeps("\n"@, word, none);
    lemma_lacking_keeps("false"@, word, none);
    lemma_lacking_keeps(STREAM_URI_TIMEOUT@, word, none);
    let close = closing("tt:Uri"@);
    assert(close.len() > 1 && close[1] == '/' && lacks(close.skip(1), '<')) by {
        reveal_strlit("</");
        reveal_strlit("tt:Uri");
        reveal_strlit(">");
    }
    lemma_other_word_keeps(close, word, 1, none);
}

/// An answer tells one address and no other, in an element of its own, and how long it holds.
pub proof fn law_answers_tell_one_address(c: OnvifView, response: Seq<char>)
    requires
        response == "trt:GetStreamUriResponse"@ || response == "trt:GetSnapshotUriResponse"@,
    ensures
        occurrences(media_uri(response, stream_address(c)), uri_tag()) == 1,
        contains_text(media_uri(response, stream_address(c)), element_text("tt:Uri"@, stream_address(c))),
        contains_text(media_uri(response, stream_address(c)), element_text("tt:Timeout"@, "PT60S"@)),
{
    let word = uri_tag();
    let none = Seq::<char>::empty();
    let uri = stream_address(c);
    let line = element_line("tt:Uri"@, uri);
    let tail = uri + closing("tt:Uri"@);
    let without = none + tail + "\n"@;
    lemma_name_starts();
    lemma_uri_frame();
    law_stream_address_holds_no_markup(c);
    assert forall|i: int| 0 <= i < uri.len() implies #[trigger] uri[i] != '<' by {
        assert(!is_markup(uri[i]));
    }
    lemma_lacking_keeps(uri, word, none);
    lemma_then(uri, uri, closing("tt:Uri"@), closing("tt:Uri"@), word, none);
    lemma_word_becomes(word, none);
    lemma_then(word, none, tail, tail, word, none);
    lemma_then(word + tail, none + tail, "\n"@, "\n"@, word, none);
    assert(line =~= word + tail + "\n"@);
    lemma_answer_becomes(response, response, line, without, word, none);
    lemma_around(response, uri);
    lemma_whole(media_uri(response, uri), around(response, without), word, none);
    law_taking_out_counts(media_uri(response, uri), word);
    lemma_lengths(response, line, without);
    let n = occurrences(media_uri(response, uri), word);
    assert(n == 1) by (nonlinear_arith)
        requires
            n * 8 == 8,
    ;
    lemma_address_is_told(response, uri);
}

/// A shorter line makes the answer as much shorter.
proof fn lemma_lengths(response: Seq<char>, line: Seq<char>, line2: Seq<char>)
    ensures
        around(response, line).len() - line.len() == around(response, line2).len() - line2.len(),
{
}

proof fn lemma_address_is_told(response: Seq<char>, uri: Seq<char>)
    ensures
        contains_text(media_uri(response, uri), element_text("tt:Uri"@, uri)),
        contains_text(media_uri(response, uri), element_text("tt:Timeout"@, "PT60S"@)),
{
    let own = element_text("tt:Uri"@, uri);
    let line = element_line("tt:Uri"@, uri);
    lemma_contains_itself(own);
    lemma_contains_sum(own, "\n"@, own);
    lemma_contains_sum(line, limits(), own);
    lemma_content_is_told(response, line + limits(), own);
    let timeout = element_text("tt:Timeout"@, STREAM_URI_TIMEOUT@);
    let a = element_line("tt:InvalidAfterConnect"@, "false"@);
    let b = element_line("tt:InvalidAfterReboot"@, "false"@);
    lemma_contains_itself(timeout);
    lemma_contains_sum(timeout, "\n"@, timeout);
    lemma_contains_sum(a + b, timeout + "\n"@, timeout);
    lemma_contains_sum(line, limits(), timeout);
    lemma_content_is_told(response, line + limits(), timeout);
    lemma_around(response, uri);
}

proof fn lemma_content_is_told(response: Seq<char>, content: Seq<char>, word: Seq<char>)
    requires
        contains_text(content, word),
    ensures
        contains_text(media_message(block_text(response, block_text("trt:MediaUri"@, content))), word),
{
    let media = block_text("trt:MediaUri"@, content);
    let body = block_text(response, media);
    let inner = "\n"@ + block_text("s:Body"@, body);
    lemma_block_contains("trt:MediaUri"@, content, word);
    lemma_block_contains(response, media, word);
    lemma_block_contains("s:Body"@, body, word);
    lemma_contains_sum("\n"@, block_text("s:Body"@, body), word);
    lemma_element_contains("s:Envelope"@, namespaces(), inner, word);
    lemma_contains_sum(
        "<?xml version=\"1.0\" encoding=\"UTF-8\"?>\n"@,
        element_with("s:Envelope"@, namespaces(), inner),
        word,
    );
}

} // verus!
