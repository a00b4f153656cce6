//! Laws of the ONVIF operations: how they are asked for, and how the answers travel.

use crate::answer_laws::{lemma_message_contains, lemma_response_name};
use crate::http::line_value;
use crate::http_laws::{
    field_line, header_block, is_field, is_line_text, law_block_ends_at_the_empty_line, Field,
};
use crate::onvif_responses::{message, synchronization_point, OnvifView, NS_DEVICE, NS_MEDIA, NS_SCHEMA};
use crate::onvif_server::{
    action_called, action_name, action_uri, action_within, answer, arrived, asked_for, http_response, response_head,
    unquoted, Arrived, ACTION_COUNT, SOAP_CONTENT_TYPE,
};
use crate::request_laws::{lemma_block_has_lines, lemma_found, lemma_no_empty_line, told};
use crate::stream_state::HubView;
use crate::text::{contains_text, decimal, trimmed};
use crate::text_laws::{lemma_contains_itself, lemma_contains_sum, lemma_numeral};
use crate::xml::{block_text, namespace_text};
use vstd::prelude::*;
use vstd::utf8::{encode_utf8, encode_utf8_decode_utf8, encode_utf8_valid_utf8, is_ascii_chars};

verus! {

/// Where the header names no operation, the body decides: the operation is the first whose address it
/// holds.
pub proof fn law_body_decides_otherwise(soap_action: Seq<char>, body: Seq<char>, i: int)
    requires
        forall|k: int| 0 <= k < ACTION_COUNT ==> unquoted(trimmed(soap_action)) != #[trigger] action_uri(k),
        0 <= i < ACTION_COUNT,
        contains_text(body, action_uri(i)),
        forall|k: int| 0 <= k < i ==> !contains_text(body, #[trigger] action_uri(k)),
    ensures
        asked_for(soap_action, body) == Some(i),
{
    lemma_not_called(unquoted(trimmed(soap_action)), 0);
    lemma_within_body(body, 0, i);
}

proof fn lemma_not_called(name: Seq<char>, from: int)
    requires
        0 <= from,
        forall|k: int| 0 <= k < ACTION_COUNT ==> name != #[trigger] action_uri(k),
    ensures
        action_called(name, from) is None,
    decreases ACTION_COUNT - from,
{
    if from < ACTION_COUNT {
        assert(name != action_uri(from));
        lemma_not_called(name, from + 1);
    }
}

proof fn lemma_within_body(body: Seq<char>, from: int, i: int)
    requires
        0 <= from <= i < ACTION_COUNT,
        contains_text(body, action_uri(i)),
        forall|k: int| 0 <= k < i ==> !contains_text(body, #[trigger] action_uri(k)),
    ensures
        action_within(body, from) == Some(i),
    decreases i - from,
{
    if from < i {
        assert(!contains_text(body, action_uri(from)));
        lemma_within_body(body, from + 1, i);
    }
}

/// The address of an operation is that of its service, with the operation's name behind it: the first
/// six are the device's, the others the media service's.
pub proof fn law_operations_have_addresses(i: int)
    requires
        0 <= i < ACTION_COUNT,
    ensures
        action_uri(i) == (if i < 6 {
            "http://www.onvif.org/ver10/device/wsdl/"@
        } else {
            "http://www.onvif.org/ver10/media/wsdl/"@
        }) + action_name(i),
{
    reveal_strlit("http://www.onvif.org/ver10/device/wsdl/");
    reveal_strlit("http://www.onvif.org/ver10/media/wsdl/");
    if i == 0 {
        reveal_strlit("http://www.onvif.org/ver10/device/wsdl/GetSystemDateAndTime");
        reveal_strlit("GetSystemDateAndTime");
    } else if i == 1 {
        reveal_strlit("http://www.onvif.org/ver10/device/wsdl/GetCapabilities");
        reveal_strlit("GetCapabilities");
    } else if i == 2 {
        reveal_strlit("http://www.onvif.org/ver10/device/wsdl/GetDeviceInformation");
        reveal_strlit("GetDeviceInformation");
    } else if i == 3 {
        reveal_strlit("http://www.onvif.org/ver10/device/wsdl/GetEndpointReference");
        reveal_strlit("GetEndpointReference");
    } else if i == 4 {
        reveal_strlit("http://www.onvif.org/ver10/device/wsdl/GetServices");
        reveal_strlit("GetServices");
    } else if i == 5 {
        reveal_strlit("http://www.onvif.org/ver10/device/wsdl/SetSynchronizationPoint");
        reveal_strlit("SetSynchronizationPoint");
    } else if i == 6 {
        reveal_strlit("http://www.onvif.org/ver10/media/wsdl/GetProfiles");
        reveal_strlit("GetProfiles");
    } else if i == 7 {
        reveal_strlit("http://www.onvif.org/ver10/media/wsdl/GetStreamUri");
        reveal_strlit("GetStreamUri");
    } else if i == 8 {
        reveal_strlit("http://www.onvif.org/ver10/media/wsdl/GetSnapshotUri");
        reveal_strlit("GetSnapshotUri");
    } else {
        reveal_strlit("http://www.onvif.org/ver10/media/wsdl/GetAudioOutputConfigurations");
        reveal_strlit("GetAudioOutputConfigurations");
    }
    let service = if i < 6 {
        "http://www.onvif.org/ver10/device/wsdl/"@
    } else {
        "http://www.onvif.org/ver10/media/wsdl/"@
    };
    assert(action_uri(i) =~= service + action_name(i));
}

/// The names of the responses.
proof fn lemma_response_names()
    ensures
        "tds:GetSystemDateAndTimeResponse"@ == "tds:"@ + ("GetSystemDateAndTime"@ + "Response"@),
        "tds:GetCapabilitiesResponse"@ == "tds:"@ + ("GetCapabilities"@ + "Response"@),
        "tds:GetDeviceInformationResponse"@ == "tds:"@ + ("GetDeviceInformation"@ + "Response"@),
        "tds:GetEndpointReferenceResponse"@ == "tds:"@ + ("GetEndpointReference"@ + "Response"@),
        "tds:GetServicesResponse"@ == "tds:"@ + ("GetServices"@ + "Response"@),
        "trt:GetProfilesResponse"@ == "trt:"@ + ("GetProfiles"@ + "Response"@),
        "trt:GetStreamUriResponse"@ == "trt:"@ + ("GetStreamUri"@ + "Response"@),
        "trt:GetSnapshotUriResponse"@ == "trt:"@ + ("GetSnapshotUri"@ + "Response"@),
        "trt:GetAudioOutputConfigurationsResponse"@ == "trt:"@ + ("GetAudioOutputConfigurations"@ + "Response"@),
{
    reveal_strlit("tds:");
    reveal_strlit("trt:");
    reveal_strlit("Response");
    reveal_strlit("tds:GetSystemDateAndTimeResponse");
    reveal_strlit("GetSystemDateAndTime");
    assert("tds:GetSystemDateAndTimeResponse"@ =~= "tds:"@ + ("GetSystemDateAndTime"@ + "Response"@));
    reveal_strlit("tds:GetCapabilitiesResponse");
    reveal_strlit("GetCapabilities");
    assert("tds:GetCapabilitiesResponse"@ =~= "tds:"@ + ("GetCapabilities"@ + "Response"@));
    reveal_strlit("tds:GetDeviceInformationResponse");
    reveal_strlit("GetDeviceInformation");
    assert("tds:GetDeviceInformationResponse"@ =~= "tds:"@ + ("GetDeviceInformation"@ + "Response"@));
    reveal_strlit("tds:GetEndpointReferenceResponse");
    reveal_strlit("GetEndpointReference");
    assert("tds:GetEndpointReferenceResponse"@ =~= "tds:"@ + ("GetEndpointReference"@ + "Response"@));
    reveal_strlit("tds:GetServicesResponse");
    reveal_strlit("GetServices");
    assert("tds:GetServicesResponse"@ =~= "tds:"@ + ("GetServices"@ + "Response"@));
    reveal_strlit("trt:GetProfilesResponse");
    reveal_strlit("GetProfiles");
    assert("trt:GetProfilesResponse"@ =~= "trt:"@ + ("GetProfiles"@ + "Response"@));
    reveal_strlit("trt:GetStreamUriResponse");
    reveal_strlit("GetStreamUri");
    assert("trt:GetStreamUriResponse"@ =~= "trt:"@ + ("GetStreamUri"@ + "Response"@));
    reveal_strlit("trt:GetSnapshotUriResponse");
    reveal_strlit("GetSnapshotUri");
    assert("trt:GetSnapshotUriResponse"@ =~= "trt:"@ + ("GetSnapshotUri"@ + "Response"@));
    reveal_strlit("trt:GetAudioOutputConfigurationsResponse");
    reveal_strlit("GetAudioOutputConfigurations");
    assert("trt:GetAudioOutputConfigurationsResponse"@ =~= "trt:"@ + ("GetAudioOutputConfigurations"@ + "Response"@));
}

/// A message with one element in its body tells the element's name.
proof fn lemma_named(namespaces: Seq<char>, full: Seq<char>, prefix: Seq<char>, name: Seq<char>)
    requires
        full == prefix + name,
    ensures
        forall|content: Seq<char>|
            contains_text(#[trigger] message(namespaces, block_text(full, content)), name),
{
    assert forall|content: Seq<char>| contains_text(
        #[trigger] message(namespaces, block_text(full, content)),
        name,
    ) by {
        lemma_response_name(prefix, name, content);
        lemma_message_contains(namespaces, block_text(full, content), name);
    }
}

proof fn lemma_synchronization_point()
    ensures
        contains_text(synchronization_point(), "SetSynchronizationPoint"@ + "Response"@),
{
    let word = "SetSynchronizationPoint"@ + "Response"@;
    let body = "<tds:SetSynchronizationPointResponse/>\n"@;
    reveal_strlit("SetSynchronizationPoint");
    reveal_strlit("Response");
    reveal_strlit("<tds:SetSynchronizationPointResponse/>\n");
    assert(body =~= body.take(5) + word + body.skip(36));
    lemma_contains_itself(word);
    lemma_contains_sum(body.take(5), word, word);
    lemma_contains_sum(body.take(5) + word, body.skip(36), word);
    lemma_message_contains(namespace_text("tds"@, NS_DEVICE@), body, word);
}

/// Every operation is answered with the element that is named after it.
pub proof fn law_answers_are_named_after_their_operation(i: int, c: OnvifView, hub: HubView, now_secs: int)
    requires
        0 <= i < ACTION_COUNT,
    ensures
        contains_text(answer(Some(i), c, hub, now_secs), action_name(i) + "Response"@),
{
    let device = namespace_text("tds"@, NS_DEVICE@);
    let both = device + namespace_text("tt"@, NS_SCHEMA@);
    let media = namespace_text("trt"@, NS_MEDIA@) + namespace_text("tt"@, NS_SCHEMA@);
    let told = "Response"@;
    lemma_response_names();
    if i == 0 {
        lemma_named(both, "tds:GetSystemDateAndTimeResponse"@, "tds:"@, "GetSystemDateAndTime"@ + told);
    } else if i == 1 {
        lemma_named(both, "tds:GetCapabilitiesResponse"@, "tds:"@, "GetCapabilities"@ + told);
    } else if i == 2 {
        lemma_named(device, "tds:GetDeviceInformationResponse"@, "tds:"@, "GetDeviceInformation"@ + told);
    } else if i == 3 {
        lemma_named(device, "tds:GetEndpointReferenceResponse"@, "tds:"@, "GetEndpointReference"@ + told);
    } else if i == 4 {
        lemma_named(both, "tds:GetServicesResponse"@, "tds:"@, "GetServices"@ + told);
    } else if i == 5 {
        lemma_synchronization_point();
    } else if i == 6 {
        lemma_named(media, "trt:GetProfilesResponse"@, "trt:"@, "GetProfiles"@ + told);
    } else if i == 7 {
        lemma_named(media, "trt:GetStreamUriResponse"@, "trt:"@, "GetStreamUri"@ + told);
    } else if i == 8 {
        lemma_named(media, "trt:GetSnapshotUriResponse"@, "trt:"@, "GetSnapshotUri"@ + told);
    } else {
        lemma_named(media, "trt:GetAudioOutputConfigurationsResponse"@, "trt:"@, "GetAudioOutputConfigurations"@ + told);
    }
}

/// A request has arrived when its headers have and as many bytes behind them as they announce: the
/// action is what stands under `SOAPAction`, the body is those bytes.
pub proof fn law_request_has_arrived(first: Seq<char>, fields: Seq<Field>, body: Seq<u8>, rest: Seq<u8>)
    requires
        is_ascii_chars(header_block(first, fields)),
        is_line_text(first),
        forall|j: int| 0 <= j < fields.len() ==> is_field(#[trigger] fields[j]),
        line_value(first, "content-length"@) is None,
        line_value(first, "soapaction"@) is None,
        told(fields, "content-length"@) == Some(decimal(body.len())),
        encode_utf8(header_block(first, fields)).len() + 4 + body.len() + rest.len() <= 65536,
    ensures
        ({
            let head = encode_utf8(header_block(first, fields));
            let action = match told(fields, "soapaction"@) {
                Some(v) => v,
                None => Seq::empty(),
            };
            &&& arrived(head + seq![13u8, 10, 13, 10] + (body + rest)) == Arrived::All(action, body)
            &&& forall|n: int|
                0 <= n < body.len() ==> arrived(head + seq![13u8, 10, 13, 10] + #[trigger] body.take(n)) is Part
        }),
{
    let text = header_block(first, fields);
    let head = encode_utf8(text);
    lemma_block_has_lines(first, fields);
    lemma_no_empty_line(text);
    encode_utf8_valid_utf8(text);
    encode_utf8_decode_utf8(text);
    lemma_found(first, fields, "content-length"@);
    lemma_found(first, fields, "soapaction"@);
    lemma_numeral(body.len(), usize::MAX as nat, ' ');
    law_block_ends_at_the_empty_line(head, body + rest);
    let buf = head + seq![13u8, 10, 13, 10] + (body + rest);
    assert(buf.take(head.len() as int) =~= head);
    let start = head.len() + 4;
    assert(buf.subrange(start as int, 0int + start + body.len()) =~= body);
    assert forall|n: int| 0 <= n < body.len() implies arrived(
        head + seq![13u8, 10, 13, 10] + #[trigger] body.take(n),
    ) is Part by {
        law_block_ends_at_the_empty_line(head, body.take(n));
        let cut = head + seq![13u8, 10, 13, 10] + body.take(n);
        assert(cut.take(head.len() as int) =~= head);
    }
}

/// What a reply's headers say: that it is SOAP, how long it is, and that the connection closes.
spec fn reply_fields(length: nat) -> Seq<Field> {
    seq![
        Field { name: "Content-Type"@, value: SOAP_CONTENT_TYPE@ },
        Field { name: "Content-Length"@, value: decimal(length) },
        Field { name: "Connection"@, value: "close"@ },
    ]
}

/// A reply is a header block, an empty line and the message in UTF-8. The headers announce exactly as
/// many bytes as follow.
pub proof fn law_reply_announces_its_length(status: u16, xml: Seq<char>)
    ensures
        exists|fields: Seq<Field>|
            http_response(status, xml) == encode_utf8(
                #[trigger] header_block("HTTP/1.1 "@ + decimal(status as nat) + " OK"@, fields) + "\r\n\r\n"@,
            ) + encode_utf8(xml) && fields.contains(
                Field { name: "Content-Length"@, value: decimal(encode_utf8(xml).len()) },
            ) && fields.contains(
                Field { name: "Content-Type"@, value: "application/soap+xml; charset=utf-8"@ },
            ),
{
    let n = encode_utf8(xml).len();
    let fields = reply_fields(n);
    let first = "HTTP/1.1 "@ + decimal(status as nat) + " OK"@;
    reveal_strlit("HTTP/1.1 ");
    reveal_strlit(" ");
    reveal_strlit("OK");
    reveal_strlit(" OK");
    reveal_strlit("\r\nContent-Type: ");
    reveal_strlit("\r\nContent-Length: ");
    reveal_strlit("\r\nConnection: close\r\n\r\n");
    reveal_strlit("\r\n\r\n");
    reveal_strlit("Content-Type");
    reveal_strlit("Content-Length");
    reveal_strlit("Connection");
    reveal_strlit("close");
    reveal_with_fuel(header_block, 4);
    let f0 = fields[0];
    let f1 = fields[1];
    let f2 = fields[2];
    assert(fields.drop_last() =~= seq![f0, f1]);
    assert(fields.drop_last().drop_last() =~= seq![f0]);
    assert(fields.drop_last().drop_last().drop_last() =~= Seq::<Field>::empty());
    let nl = seq!['\r', '\n'];
    let block = first + nl + field_line(f0) + nl + field_line(f1) + nl + field_line(f2);
    assert(header_block(first, fields) == block);
    assert("\r\nContent-Type: "@ =~= nl + "Content-Type"@ + seq![':', ' ']);
    assert("\r\nContent-Length: "@ =~= nl + "Content-Length"@ + seq![':', ' ']);
    assert("\r\nConnection: close\r\n\r\n"@ =~= nl + field_line(f2) + "\r\n\r\n"@);
    assert("HTTP/1.1 "@ + decimal(status as nat) + " "@ + "OK"@ =~= first);
    assert(first + "\r\nContent-Type: "@ + SOAP_CONTENT_TYPE@ =~= first + nl + field_line(f0));
    let a = first + nl + field_line(f0);
    assert(a + "\r\nContent-Length: "@ + decimal(n) =~= a + nl + field_line(f1));
    let b = a + nl + field_line(f1);
    assert(b + (nl + field_line(f2) + "\r\n\r\n"@) =~= b + nl + field_line(f2) + "\r\n\r\n"@);
    assert(response_head(status, n) =~= block + "\r\n\r\n"@);
    assert(fields.contains(f1) && fields.contains(f0));
}

} // verus!
