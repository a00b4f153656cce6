//! Laws of what stands round the ONVIF answers, and of the answers that are always the same.

use crate::answer_laws::{lemma_element_is, lemma_line_contains, lemma_message_contains, tells};
use crate::onvif_responses::{
    audio_output_configurations, device_message, device_schema_message, endpoint_reference, fault, media_message,
    message, synchronization_point, NS_DEVICE, NS_MEDIA, NS_SCHEMA,
};
use crate::text::contains_text;
use crate::text_laws::{lemma_block_contains, lemma_contains_itself, lemma_contains_sum, lemma_element_contains};
use crate::xml::{block_text, element_line, element_text, element_with, namespace_text, NS_ADDRESSING, NS_ENVELOPE};
use vstd::prelude::*;

verus! {

/// What an envelope declares stands in its message.
proof fn lemma_declared(namespaces: Seq<char>, body: Seq<char>, word: Seq<char>)
    requires
        contains_text(namespace_text("s"@, NS_ENVELOPE@) + namespaces, word),
    ensures
        contains_text(message(namespaces, body), word),
{
    let attributes = namespace_text("s"@, NS_ENVELOPE@) + namespaces;
    let inner = "\n"@ + block_text("s:Body"@, body);
    lemma_attributes_contain("s:Envelope"@, attributes, inner, word);
    lemma_contains_sum(
        "<?xml version=\"1.0\" encoding=\"UTF-8\"?>\n"@,
        element_with("s:Envelope"@, attributes, inner),
        word,
    );
}

/// What stands in the attributes of an element stands in the element.
pub(crate) proof fn lemma_attributes_contain(
    name: Seq<char>,
    attributes: Seq<char>,
    inner: Seq<char>,
    word: Seq<char>,
)
    requires
        contains_text(attributes, word),
    ensures
        contains_text(element_with(name, attributes, inner), word),
{
    let open = "<"@ + name;
    lemma_contains_sum(open, attributes, word);
    lemma_contains_sum(open + attributes, ">"@, word);
    lemma_contains_sum(open + attributes + ">"@, inner, word);
    lemma_contains_sum(open + attributes + ">"@ + inner, "</"@, word);
    lemma_contains_sum(open + attributes + ">"@ + inner + "</"@, name, word);
    lemma_contains_sum(open + attributes + ">"@ + inner + "</"@ + name, ">"@, word);
}

/// A declaration names its prefix and its address.
pub(crate) proof fn lemma_declaration(prefix: Seq<char>, uri: Seq<char>)
    ensures
        contains_text(namespace_text(prefix, uri), prefix + "=\""@ + uri + "\""@),
{
    let word = prefix + "=\""@ + uri + "\""@;
    lemma_contains_itself(word);
    lemma_contains_sum(" xmlns:"@, word, word);
    assert(namespace_text(prefix, uri) =~= " xmlns:"@ + word);
}

/// Every message is a SOAP 1.2 envelope, and declares the address of each prefix that its service uses.
pub proof fn law_messages_declare_their_prefixes(body: Seq<char>)
    ensures
        ({
            let soap = "s"@ + "=\""@ + "http://www.w3.org/2003/05/soap-envelope"@ + "\""@;
            let device = "tds"@ + "=\""@ + "http://www.onvif.org/ver10/device/wsdl"@ + "\""@;
            let media = "trt"@ + "=\""@ + "http://www.onvif.org/ver10/media/wsdl"@ + "\""@;
            let schema = "tt"@ + "=\""@ + "http://www.onvif.org/ver10/schema"@ + "\""@;
            &&& contains_text(device_message(body), soap) && contains_text(device_message(body), device)
            &&& contains_text(device_schema_message(body), soap) && contains_text(device_schema_message(body), device)
                && contains_text(device_schema_message(body), schema)
            &&& contains_text(media_message(body), soap) && contains_text(media_message(body), media) && contains_text(
                media_message(body),
                schema,
            )
        }),
{
    let soap = "s"@ + "=\""@ + NS_ENVELOPE@ + "\""@;
    let device = "tds"@ + "=\""@ + NS_DEVICE@ + "\""@;
    let media = "trt"@ + "=\""@ + NS_MEDIA@ + "\""@;
    let schema = "tt"@ + "=\""@ + NS_SCHEMA@ + "\""@;
    let s = namespace_text("s"@, NS_ENVELOPE@);
    let d = namespace_text("tds"@, NS_DEVICE@);
    let m = namespace_text("trt"@, NS_MEDIA@);
    let t = namespace_text("tt"@, NS_SCHEMA@);
    lemma_declaration("s"@, NS_ENVELOPE@);
    lemma_declaration("tds"@, NS_DEVICE@);
    lemma_declaration("trt"@, NS_MEDIA@);
    lemma_declaration("tt"@, NS_SCHEMA@);
    lemma_three_places(s, d, Seq::empty(), soap, device, device);
    lemma_three_places(s, d, t, soap, device, schema);
    lemma_three_places(s, m, t, soap, media, schema);
    lemma_declared(d, body, soap);
    lemma_declared(d, body, device);
    lemma_declared(d + t, body, soap);
    lemma_declared(d + t, body, device);
    lemma_declared(d + t, body, schema);
    lemma_declared(m + t, body, soap);
    lemma_declared(m + t, body, media);
    lemma_declared(m + t, body, schema);
}

proof fn lemma_three_places(
    a: Seq<char>,
    b: Seq<char>,
    c: Seq<char>,
    x: Seq<char>,
    y: Seq<char>,
    z: Seq<char>,
)
    requires
        contains_text(a, x),
        contains_text(b, y),
    ensures
        contains_text(a + b, x) && contains_text(a + b, y),
        contains_text(a + (b + c), x) && contains_text(a + (b + c), y),
        contains_text(c, z) ==> contains_text(a + (b + c), z),
{
    lemma_contains_sum(a, b, x);
    lemma_contains_sum(a, b, y);
    lemma_contains_sum(b, c, y);
    lemma_contains_sum(a, b + c, x);
    lemma_contains_sum(a, b + c, y);
    if contains_text(c, z) {
        lemma_contains_sum(b, c, z);
        lemma_contains_sum(a, b + c, z);
    }
}

/// What is not supported is answered with a fault of the sender that says so.
pub proof fn law_fault_says_what_is_wrong()
    ensures
        tells(fault(), "<s:Value>"@, "s:Sender"@, "</s:Value>"@),
        tells(fault(), "<s:Value>"@, "wsa:ActionNotSupported"@, "</s:Value>"@),
        contains_text(fault(), "The action is not supported by the service."@),
{
    reveal_strlit("<s:Value>");
    reveal_strlit("</s:Value>");
    reveal_strlit("s:Value");
    assert("<s:Value>"@ =~= seq!['<'] + "s:Value"@ + seq!['>']);
    assert("</s:Value>"@ =~= seq!['<', '/'] + "s:Value"@ + seq!['>']);
    let sender = element_text("s:Value"@, "s:Sender"@);
    let kind = element_text("s:Value"@, "wsa:ActionNotSupported"@);
    lemma_element_is("s:Value"@, "<s:Value>"@, "</s:Value>"@, "s:Sender"@);
    lemma_element_is("s:Value"@, "<s:Value>"@, "</s:Value>"@, "wsa:ActionNotSupported"@);
    let sub = element_text("s:Subcode"@, kind);
    lemma_element_contains("s:Subcode"@, Seq::empty(), kind, kind);
    lemma_contains_sum(sender, sub, sender);
    lemma_contains_sum(sender, sub, kind);
    let code = element_line("s:Code"@, sender + sub);
    lemma_line_contains("s:Code"@, sender + sub, sender);
    lemma_line_contains("s:Code"@, sender + sub, kind);
    let words = "The action is not supported by the service."@;
    let text = element_with("s:Text"@, " xml:lang=\"en\""@, words);
    lemma_contains_itself(words);
    lemma_element_contains("s:Text"@, " xml:lang=\"en\""@, words, words);
    let reason = element_line("s:Reason"@, text);
    lemma_line_contains("s:Reason"@, text, words);
    lemma_contains_sum(code, reason, sender);
    lemma_contains_sum(code, reason, kind);
    lemma_contains_sum(code, reason, words);
    lemma_block_contains("s:Fault"@, code + reason, sender);
    lemma_block_contains("s:Fault"@, code + reason, kind);
    lemma_block_contains("s:Fault"@, code + reason, words);
    let body = block_text("s:Fault"@, code + reason);
    let ns = namespace_text("wsa"@, NS_ADDRESSING@);
    lemma_message_contains(ns, body, sender);
    lemma_message_contains(ns, body, kind);
    lemma_message_contains(ns, body, words);
}

/// The device has a reference, no sound to put out, and nothing to synchronize.
pub proof fn law_fixed_answers()
    ensures
        tells(endpoint_reference(), "<tds:Guid>"@, "urn:uuid:flvproxy-000000000000"@, "</tds:Guid>"@),
        contains_text(audio_output_configurations(), "<trt:Configurations/>"@),
        contains_text(synchronization_point(), "<tds:SetSynchronizationPointResponse/>"@),
{
    reveal_strlit("<tds:Guid>");
    reveal_strlit("</tds:Guid>");
    reveal_strlit("tds:Guid");
    assert("<tds:Guid>"@ =~= seq!['<'] + "tds:Guid"@ + seq!['>']);
    assert("</tds:Guid>"@ =~= seq!['<', '/'] + "tds:Guid"@ + seq!['>']);
    let id = "urn:uuid:flvproxy-000000000000"@;
    lemma_element_is("tds:Guid"@, "<tds:Guid>"@, "</tds:Guid>"@, id);
    let word = "<tds:Guid>"@ + id + "</tds:Guid>"@;
    let line = element_line("tds:Guid"@, id);
    lemma_block_contains("tds:GetEndpointReferenceResponse"@, line, word);
    lemma_message_contains(
        namespace_text("tds"@, NS_DEVICE@),
        block_text("tds:GetEndpointReferenceResponse"@, line),
        word,
    );
    reveal_strlit("<trt:Configurations/>");
    reveal_strlit("<trt:Configurations/>\n");
    reveal_strlit("<tds:SetSynchronizationPointResponse/>");
    reveal_strlit("<tds:SetSynchronizationPointResponse/>\n");
    reveal_strlit("\n");
    let none = "<trt:Configurations/>"@;
    let done = "<tds:SetSynchronizationPointResponse/>"@;
    assert("<trt:Configurations/>\n"@ =~= none + "\n"@);
    assert("<tds:SetSynchronizationPointResponse/>\n"@ =~= done + "\n"@);
    lemma_contains_itself(none);
    lemma_contains_itself(done);
    lemma_contains_sum(none, "\n"@, none);
    lemma_contains_sum(done, "\n"@, done);
    lemma_block_contains("trt:GetAudioOutputConfigurationsResponse"@, none + "\n"@, none);
    lemma_message_contains(
        namespace_text("trt"@, NS_MEDIA@) + namespace_text("tt"@, NS_SCHEMA@),
        block_text("trt:GetAudioOutputConfigurationsResponse"@, none + "\n"@),
        none,
    );
    lemma_message_contains(namespace_text("tds"@, NS_DEVICE@), done + "\n"@, done);
}

} // verus!
