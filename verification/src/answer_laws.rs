//! Laws of what the ONVIF answers tell, read off their elements.

use crate::calendar::{day_number, is_date, lemma_civil};
use crate::camera_identity::IdentityView;
use crate::ieee754::binary32_saturating;
use crate::media_laws::law_answers_tell_one_address;
use crate::onvif_responses::{
    capabilities, device_information, device_message, device_schema_message, media_uri, message, number_element, profiles, service_entry,
    services, stream_address, system_date_and_time, told_format, told_model, told_serial, OnvifView, MANUFACTURER,
    MODEL, NS_DEVICE, NS_MEDIA, NS_SCHEMA, PROFILE_TOKEN,
};
use crate::stream_state::HubView;
use crate::text::{contains_text, decimal};
use crate::text_laws::{
    closing, lemma_block_contains, lemma_contains_itself, lemma_contains_sum, lemma_element_contains, opening,
};
use crate::xml::{
    block_text, element_line, element_text, element_with, escaped, namespace_text, NS_ENVELOPE,
};
use vstd::prelude::*;

verus! {

/// Whether an answer holds a value between an opening and a closing tag.
pub open spec fn tells(answer: Seq<char>, open: Seq<char>, value: Seq<char>, close: Seq<char>) -> bool {
    contains_text(answer, open + value + close)
}

/// What stands in the body of a message stands in the message.
pub(crate) proof fn lemma_message_contains(namespaces: Seq<char>, body: Seq<char>, word: Seq<char>)
    requires
        contains_text(body, word),
    ensures
        contains_text(message(namespaces, body), word),
{
    let inner = "\n"@ + block_text("s:Body"@, body);
    let attributes = namespace_text("s"@, NS_ENVELOPE@) + namespaces;
    lemma_block_contains("s:Body"@, body, word);
    lemma_contains_sum("\n"@, block_text("s:Body"@, body), word);
    lemma_element_contains("s:Envelope"@, attributes, inner, word);
    lemma_contains_sum(
        "<?xml version=\"1.0\" encoding=\"UTF-8\"?>\n"@,
        element_with("s:Envelope"@, attributes, inner),
        word,
    );
}

/// What stands in the content of a line stands in the line.
pub(crate) proof fn lemma_line_contains(name: Seq<char>, content: Seq<char>, word: Seq<char>)
    requires
        contains_text(content, word),
    ensures
        contains_text(element_line(name, content), word),
{
    lemma_element_contains(name, Seq::empty(), content, word);
    lemma_contains_sum(element_text(name, content), "\n"@, word);
}

/// An element is its tags around its content.
pub(crate) proof fn lemma_element_is(name: Seq<char>, open: Seq<char>, close: Seq<char>, content: Seq<char>)
    requires
        open == seq!['<'] + name + seq!['>'],
        close == seq!['<', '/'] + name + seq!['>'],
    ensures
        element_text(name, content) == open + content + close,
        contains_text(element_text(name, content), open + content + close),
        contains_text(element_line(name, content), open + content + close),
{
    reveal_strlit("<");
    reveal_strlit(">");
    reveal_strlit("</");
    assert(element_text(name, content) =~= open + content + close);
    lemma_contains_itself(open + content + close);
    lemma_contains_sum(element_text(name, content), "\n"@, open + content + close);
}

/// The tags of the elements that tell the format.
proof fn lemma_format_tags()
    ensures
        "<tt:Width>"@ == seq!['<'] + "tt:Width"@ + seq!['>'],
        "</tt:Width>"@ == seq!['<', '/'] + "tt:Width"@ + seq!['>'],
        "<tt:Height>"@ == seq!['<'] + "tt:Height"@ + seq!['>'],
        "</tt:Height>"@ == seq!['<', '/'] + "tt:Height"@ + seq!['>'],
        "<tt:FrameRateLimit>"@ == seq!['<'] + "tt:FrameRateLimit"@ + seq!['>'],
        "</tt:FrameRateLimit>"@ == seq!['<', '/'] + "tt:FrameRateLimit"@ + seq!['>'],
        "<tt:Encoding>"@ == seq!['<'] + "tt:Encoding"@ + seq!['>'],
        "</tt:Encoding>"@ == seq!['<', '/'] + "tt:Encoding"@ + seq!['>'],
{
    reveal_strlit("tt:Width");
    reveal_strlit("<tt:Width>");
    reveal_strlit("</tt:Width>");
    reveal_strlit("tt:Height");
    reveal_strlit("<tt:Height>");
    reveal_strlit("</tt:Height>");
    reveal_strlit("tt:FrameRateLimit");
    reveal_strlit("<tt:FrameRateLimit>");
    reveal_strlit("</tt:FrameRateLimit>");
    reveal_strlit("tt:Encoding");
    reveal_strlit("<tt:Encoding>");
    reveal_strlit("</tt:Encoding>");
    assert("<tt:Width>"@ =~= seq!['<'] + "tt:Width"@ + seq!['>']);
    assert("</tt:Width>"@ =~= seq!['<', '/'] + "tt:Width"@ + seq!['>']);
    assert("<tt:Height>"@ =~= seq!['<'] + "tt:Height"@ + seq!['>']);
    assert("</tt:Height>"@ =~= seq!['<', '/'] + "tt:Height"@ + seq!['>']);
    assert("<tt:FrameRateLimit>"@ =~= seq!['<'] + "tt:FrameRateLimit"@ + seq!['>']);
    assert("</tt:FrameRateLimit>"@ =~= seq!['<', '/'] + "tt:FrameRateLimit"@ + seq!['>']);
    assert("<tt:Encoding>"@ =~= seq!['<'] + "tt:Encoding"@ + seq!['>']);
    assert("</tt:Encoding>"@ =~= seq!['<', '/'] + "tt:Encoding"@ + seq!['>']);
}

/// The answer to `GetProfiles`.
pub open spec fn profiles_told(hub: HubView) -> Seq<char> {
    let format = told_format(hub);
    profiles(format.0, format.1, format.2)
}

/// What stands in the settings of a profile stands in the answer.
proof fn lemma_profiles_contain(width: u32, height: u32, fps: u32, word: Seq<char>)
    requires
        ({
            let encoding = element_line("tt:Encoding"@, "H264"@);
            let size = number_element("tt:Width"@, width as int) + number_element("tt:Height"@, height as int);
            let rate = number_element("tt:FrameRateLimit"@, fps as int);
            contains_text(
                encoding + element_line("tt:Resolution"@, size) + element_line("tt:RateControl"@, rate),
                word,
            )
        }),
    ensures
        contains_text(profiles(width, height, fps), word),
{
    let encoding = element_line("tt:Encoding"@, "H264"@);
    let size = number_element("tt:Width"@, width as int) + number_element("tt:Height"@, height as int);
    let rate = number_element("tt:FrameRateLimit"@, fps as int);
    let content = encoding + element_line("tt:Resolution"@, size) + element_line("tt:RateControl"@, rate);
    let settings = block_text("tt:VideoEncoderConfiguration"@, content);
    let profile = element_with("trt:Profiles"@, " token=\""@ + PROFILE_TOKEN@ + "\""@, "\n"@ + settings);
    lemma_block_contains("tt:VideoEncoderConfiguration"@, content, word);
    lemma_contains_sum("\n"@, settings, word);
    lemma_element_contains("trt:Profiles"@, " token=\""@ + PROFILE_TOKEN@ + "\""@, "\n"@ + settings, word);
    lemma_contains_sum(profile, "\n"@, word);
    let body = block_text("trt:GetProfilesResponse"@, profile + "\n"@);
    lemma_block_contains("trt:GetProfilesResponse"@, profile + "\n"@, word);
    lemma_message_contains(namespace_text("trt"@, NS_MEDIA@) + namespace_text("tt"@, NS_SCHEMA@), body, word);
}

proof fn lemma_profiles_tell(width: u32, height: u32, fps: u32)
    ensures
        ({
            let answer = profiles(width, height, fps);
            &&& tells(answer, "<tt:Width>"@, decimal(width as nat), "</tt:Width>"@)
            &&& tells(answer, "<tt:Height>"@, decimal(height as nat), "</tt:Height>"@)
            &&& tells(answer, "<tt:FrameRateLimit>"@, decimal(fps as nat), "</tt:FrameRateLimit>"@)
            &&& tells(answer, "<tt:Encoding>"@, "H264"@, "</tt:Encoding>"@)
        }),
{
    let encoding = element_line("tt:Encoding"@, "H264"@);
    let w = number_element("tt:Width"@, width as int);
    let h = number_element("tt:Height"@, height as int);
    let size = element_line("tt:Resolution"@, w + h);
    let r = number_element("tt:FrameRateLimit"@, fps as int);
    let rate = element_line("tt:RateControl"@, r);
    let own_w = "<tt:Width>"@ + decimal(width as nat) + "</tt:Width>"@;
    let own_h = "<tt:Height>"@ + decimal(height as nat) + "</tt:Height>"@;
    let own_r = "<tt:FrameRateLimit>"@ + decimal(fps as nat) + "</tt:FrameRateLimit>"@;
    let own_e = "<tt:Encoding>"@ + "H264"@ + "</tt:Encoding>"@;
    lemma_format_tags();
    lemma_element_is("tt:Width"@, "<tt:Width>"@, "</tt:Width>"@, decimal(width as nat));
    lemma_element_is("tt:Height"@, "<tt:Height>"@, "</tt:Height>"@, decimal(height as nat));
    lemma_element_is("tt:FrameRateLimit"@, "<tt:FrameRateLimit>"@, "</tt:FrameRateLimit>"@, decimal(fps as nat));
    lemma_element_is("tt:Encoding"@, "<tt:Encoding>"@, "</tt:Encoding>"@, "H264"@);
    lemma_contains_sum(w, h, own_w);
    lemma_contains_sum(w, h, own_h);
    lemma_line_contains("tt:Resolution"@, w + h, own_w);
    lemma_line_contains("tt:Resolution"@, w + h, own_h);
    lemma_line_contains("tt:RateControl"@, r, own_r);
    lemma_contains_sum(encoding, size, own_w);
    lemma_contains_sum(encoding, size, own_h);
    lemma_contains_sum(encoding, size, own_e);
    lemma_contains_sum(encoding + size, rate, own_w);
    lemma_contains_sum(encoding + size, rate, own_h);
    lemma_contains_sum(encoding + size, rate, own_e);
    lemma_contains_sum(encoding + size, rate, own_r);
    lemma_profiles_contain(width, height, fps, own_w);
    lemma_profiles_contain(width, height, fps, own_h);
    lemma_profiles_contain(width, height, fps, own_e);
    lemma_profiles_contain(width, height, fps, own_r);
}

/// The profile tells the stream's own format: where the hub's codec declares a width, a height or a
/// rate, the answer holds its numeral in `tt:Width`, `tt:Height` or `tt:FrameRateLimit`, the rate
/// without its fraction. 1920, 1080 and 30 are told for what is not declared. The encoding is H.264.
pub proof fn law_profiles_tell_the_declared_format(hub: HubView)
    ensures
        ({
            let answer = profiles_told(hub);
            &&& tells(answer, "<tt:Encoding>"@, "H264"@, "</tt:Encoding>"@)
            &&& hub.codec matches Some(c) ==> {
                &&& c.width matches Some(w) ==> tells(answer, "<tt:Width>"@, decimal(w as nat), "</tt:Width>"@)
                &&& c.height matches Some(h) ==> tells(answer, "<tt:Height>"@, decimal(h as nat), "</tt:Height>"@)
                &&& c.fps matches Some(f) ==> tells(
                    answer,
                    "<tt:FrameRateLimit>"@,
                    decimal(binary32_saturating(f.bits) as nat),
                    "</tt:FrameRateLimit>"@,
                )
                &&& c.width is None ==> tells(answer, "<tt:Width>"@, "1920"@, "</tt:Width>"@)
                &&& c.height is None ==> tells(answer, "<tt:Height>"@, "1080"@, "</tt:Height>"@)
                &&& c.fps is None ==> tells(answer, "<tt:FrameRateLimit>"@, "30"@, "</tt:FrameRateLimit>"@)
            }
            &&& hub.codec is None ==> {
                &&& tells(answer, "<tt:Width>"@, "1920"@, "</tt:Width>"@)
                &&& tells(answer, "<tt:Height>"@, "1080"@, "</tt:Height>"@)
                &&& tells(answer, "<tt:FrameRateLimit>"@, "30"@, "</tt:FrameRateLimit>"@)
            }
        }),
{
    let format = told_format(hub);
    lemma_profiles_tell(format.0, format.1, format.2);
    reveal_strlit("1920");
    reveal_strlit("1080");
    reveal_strlit("30");
    reveal_with_fuel(decimal, 5);
    assert(decimal(1920) =~= "1920"@);
    assert(decimal(1080) =~= "1080"@);
    assert(decimal(30) =~= "30"@);
}

/// A text with the format in it: a width and a height, one behind the other, and further on a rate.
pub open spec fn format_within(
    head: Seq<char>,
    width: nat,
    height: nat,
    between: Seq<char>,
    rate: nat,
    tail: Seq<char>,
) -> Seq<char> {
    head + format_text(width, height, between, rate) + tail
}

/// The format as it stands in an answer.
pub open spec fn format_text(width: nat, height: nat, between: Seq<char>, rate: nat) -> Seq<char> {
    ("<tt:Width>"@ + decimal(width) + "</tt:Width>"@) + ("<tt:Height>"@ + decimal(height) + "</tt:Height>"@)
        + between + ("<tt:FrameRateLimit>"@ + decimal(rate) + "</tt:FrameRateLimit>"@)
}

proof fn lemma_element_around(
    name: Seq<char>,
    attributes: Seq<char>,
    head: Seq<char>,
    core: Seq<char>,
    tail: Seq<char>,
)
    ensures
        element_with(name, attributes, head + core + tail) == (opening(name, attributes) + head) + core + (tail
            + closing(name)),
{
    assert(element_with(name, attributes, head + core + tail) =~= (opening(name, attributes) + head) + core + (tail
        + closing(name)));
}

proof fn lemma_block_around(name: Seq<char>, head: Seq<char>, core: Seq<char>, tail: Seq<char>)
    ensures
        block_text(name, head + core + tail) == (opening(name, Seq::empty()) + ("\n"@ + head)) + core + ((tail
            + closing(name)) + "\n"@),
{
    assert("\n"@ + (head + core + tail) =~= ("\n"@ + head) + core + tail);
    lemma_element_around(name, Seq::empty(), "\n"@ + head, core, tail);
    let left = opening(name, Seq::empty()) + ("\n"@ + head);
    assert((left + core + (tail + closing(name))) + "\n"@ =~= left + core + ((tail + closing(name)) + "\n"@));
}

/// What stands before and behind the body of a message.
spec fn envelope_head(namespaces: Seq<char>, head: Seq<char>) -> Seq<char> {
    "<?xml version=\"1.0\" encoding=\"UTF-8\"?>\n"@ + (opening(
        "s:Envelope"@,
        namespace_text("s"@, NS_ENVELOPE@) + namespaces,
    ) + ("\n"@ + (opening("s:Body"@, Seq::empty()) + ("\n"@ + head))))
}

spec fn envelope_tail(tail: Seq<char>) -> Seq<char> {
    ((tail + closing("s:Body"@)) + "\n"@) + closing("s:Envelope"@)
}

proof fn lemma_message_around(namespaces: Seq<char>, head: Seq<char>, core: Seq<char>, tail: Seq<char>)
    ensures
        message(namespaces, head + core + tail) == envelope_head(namespaces, head) + core + envelope_tail(tail),
{
    lemma_block_around("s:Body"@, head, core, tail);
    let h = opening("s:Body"@, Seq::empty()) + ("\n"@ + head);
    let t = (tail + closing("s:Body"@)) + "\n"@;
    assert("\n"@ + (h + core + t) =~= ("\n"@ + h) + core + t);
    let attributes = namespace_text("s"@, NS_ENVELOPE@) + namespaces;
    lemma_element_around("s:Envelope"@, attributes, "\n"@ + h, core, t);
    let first = "<?xml version=\"1.0\" encoding=\"UTF-8\"?>\n"@;
    let inside = opening("s:Envelope"@, attributes) + ("\n"@ + h);
    assert(first + (inside + core + (t + closing("s:Envelope"@))) =~= (first + inside) + core + (t + closing(
        "s:Envelope"@,
    )));
}

/// What stands before and behind the settings of the profile.
spec fn profile_head(head: Seq<char>) -> Seq<char> {
    opening("trt:GetProfilesResponse"@, Seq::empty()) + ("\n"@ + (opening(
        "trt:Profiles"@,
        " token=\""@ + PROFILE_TOKEN@ + "\""@,
    ) + ("\n"@ + (opening("tt:VideoEncoderConfiguration"@, Seq::empty()) + ("\n"@ + head)))))
}

spec fn profile_tail(tail: Seq<char>) -> Seq<char> {
    ((((((tail + closing("tt:VideoEncoderConfiguration"@)) + "\n"@) + closing("trt:Profiles"@)) + "\n"@) + closing(
        "trt:GetProfilesResponse"@,
    )) + "\n"@)
}

proof fn lemma_profile_around(head: Seq<char>, core: Seq<char>, tail: Seq<char>)
    ensures
        block_text(
            "trt:GetProfilesResponse"@,
            element_with(
                "trt:Profiles"@,
                " token=\""@ + PROFILE_TOKEN@ + "\""@,
                "\n"@ + block_text("tt:VideoEncoderConfiguration"@, head + core + tail),
            ) + "\n"@,
        ) == profile_head(head) + core + profile_tail(tail),
{
    let name = "tt:VideoEncoderConfiguration"@;
    let token = " token=\""@ + PROFILE_TOKEN@ + "\""@;
    lemma_block_around(name, head, core, tail);
    let h1 = opening(name, Seq::empty()) + ("\n"@ + head);
    let t1 = (tail + closing(name)) + "\n"@;
    assert("\n"@ + (h1 + core + t1) =~= ("\n"@ + h1) + core + t1);
    lemma_element_around("trt:Profiles"@, token, "\n"@ + h1, core, t1);
    let h2 = opening("trt:Profiles"@, token) + ("\n"@ + h1);
    let t2 = t1 + closing("trt:Profiles"@);
    assert((h2 + core + t2) + "\n"@ =~= h2 + core + (t2 + "\n"@));
    lemma_block_around("trt:GetProfilesResponse"@, h2, core, t2 + "\n"@);
}

/// What stands between the size and the rate.
spec fn between_size_and_rate() -> Seq<char> {
    closing("tt:Resolution"@) + "\n"@ + opening("tt:RateControl"@, Seq::empty())
}

/// What stands before and behind the format in the settings.
spec fn settings_head() -> Seq<char> {
    element_line("tt:Encoding"@, "H264"@) + opening("tt:Resolution"@, Seq::empty())
}

spec fn settings_tail() -> Seq<char> {
    closing("tt:RateControl"@) + "\n"@
}

proof fn lemma_settings_around(size: Seq<char>, rate: Seq<char>)
    ensures
        element_line("tt:Encoding"@, "H264"@) + element_line("tt:Resolution"@, size) + element_line(
            "tt:RateControl"@,
            rate,
        ) == settings_head() + (size + between_size_and_rate() + rate) + settings_tail(),
{
    let none = Seq::<char>::empty();
    assert(element_line("tt:Resolution"@, size) =~= opening("tt:Resolution"@, none) + size + closing(
        "tt:Resolution"@,
    ) + "\n"@);
    assert(element_line("tt:RateControl"@, rate) =~= opening("tt:RateControl"@, none) + rate + closing(
        "tt:RateControl"@,
    ) + "\n"@);
    assert(element_line("tt:Encoding"@, "H264"@) + element_line("tt:Resolution"@, size) + element_line(
        "tt:RateControl"@,
        rate,
    ) =~= settings_head() + (size + between_size_and_rate() + rate) + settings_tail());
}

/// What stands before and behind the format in the answer.
spec fn format_head() -> Seq<char> {
    envelope_head(
        namespace_text("trt"@, NS_MEDIA@) + namespace_text("tt"@, NS_SCHEMA@),
        profile_head(settings_head()),
    )
}

spec fn format_tail() -> Seq<char> {
    envelope_tail(profile_tail(settings_tail()))
}

proof fn lemma_profiles_frame(width: u32, height: u32, fps: u32)
    ensures
        profiles(width, height, fps) == format_within(
            format_head(),
            width as nat,
            height as nat,
            between_size_and_rate(),
            fps as nat,
            format_tail(),
        ),
{
    let size = number_element("tt:Width"@, width as int) + number_element("tt:Height"@, height as int);
    let rate = number_element("tt:FrameRateLimit"@, fps as int);
    lemma_format_tags();
    lemma_element_is("tt:Width"@, "<tt:Width>"@, "</tt:Width>"@, decimal(width as nat));
    lemma_element_is("tt:Height"@, "<tt:Height>"@, "</tt:Height>"@, decimal(height as nat));
    lemma_element_is("tt:FrameRateLimit"@, "<tt:FrameRateLimit>"@, "</tt:FrameRateLimit>"@, decimal(fps as nat));
    let core = size + between_size_and_rate() + rate;
    assert(core == format_text(width as nat, height as nat, between_size_and_rate(), fps as nat));
    lemma_settings_around(size, rate);
    lemma_profile_around(settings_head(), core, settings_tail());
    lemma_message_around(
        namespace_text("trt"@, NS_MEDIA@) + namespace_text("tt"@, NS_SCHEMA@),
        profile_head(settings_head()),
        core,
        profile_tail(settings_tail()),
    );
}

/// The number told for a declared value, or else for none.
pub open spec fn declared_or(value: Option<u32>, otherwise: nat) -> nat {
    if value is Some {
        value->0 as nat
    } else {
        otherwise
    }
}

/// Of two hubs' profiles nothing differs but the numerals of width, height and rate, which stand in
/// the same three places: so a declared number is told where an undeclared one's stand-in would be,
/// and nowhere else.
pub proof fn law_profiles_differ_in_the_format_only(a: HubView, b: HubView)
    requires
        a.codec is Some,
        b.codec is Some,
    ensures
        exists|head: Seq<char>, between: Seq<char>, tail: Seq<char>|
            profiles_told(a) == #[trigger] format_within(
                head,
                declared_or(a.codec->0.width, 1920),
                declared_or(a.codec->0.height, 1080),
                between,
                told_format(a).2 as nat,
                tail,
            ) && profiles_told(b) == format_within(
                head,
                declared_or(b.codec->0.width, 1920),
                declared_or(b.codec->0.height, 1080),
                between,
                told_format(b).2 as nat,
                tail,
            ),
{
    let head = format_head();
    let between = between_size_and_rate();
    let tail = format_tail();
    let f = told_format(a);
    let g = told_format(b);
    lemma_profiles_frame(f.0, f.1, f.2);
    lemma_profiles_frame(g.0, g.1, g.2);
    assert(profiles_told(a) == format_within(
        head,
        declared_or(a.codec->0.width, 1920),
        declared_or(a.codec->0.height, 1080),
        between,
        told_format(a).2 as nat,
        tail,
    ));
}

/// The tags of the elements that describe the device.
proof fn lemma_device_tags()
    ensures
        "<tds:Manufacturer>"@ == seq!['<'] + "tds:Manufacturer"@ + seq!['>'],
        "</tds:Manufacturer>"@ == seq!['<', '/'] + "tds:Manufacturer"@ + seq!['>'],
        "<tds:Model>"@ == seq!['<'] + "tds:Model"@ + seq!['>'],
        "</tds:Model>"@ == seq!['<', '/'] + "tds:Model"@ + seq!['>'],
        "<tds:FirmwareVersion>"@ == seq!['<'] + "tds:FirmwareVersion"@ + seq!['>'],
        "</tds:FirmwareVersion>"@ == seq!['<', '/'] + "tds:FirmwareVersion"@ + seq!['>'],
        "<tds:SerialNumber>"@ == seq!['<'] + "tds:SerialNumber"@ + seq!['>'],
        "</tds:SerialNumber>"@ == seq!['<', '/'] + "tds:SerialNumber"@ + seq!['>'],
        "<tds:HardwareId>"@ == seq!['<'] + "tds:HardwareId"@ + seq!['>'],
        "</tds:HardwareId>"@ == seq!['<', '/'] + "tds:HardwareId"@ + seq!['>'],
{
    reveal_strlit("tds:Manufacturer");
    reveal_strlit("<tds:Manufacturer>");
    reveal_strlit("</tds:Manufacturer>");
    reveal_strlit("tds:Model");
    reveal_strlit("<tds:Model>");
    reveal_strlit("</tds:Model>");
    reveal_strlit("tds:FirmwareVersion");
    reveal_strlit("<tds:FirmwareVersion>");
    reveal_strlit("</tds:FirmwareVersion>");
    reveal_strlit("tds:SerialNumber");
    reveal_strlit("<tds:SerialNumber>");
    reveal_strlit("</tds:SerialNumber>");
    reveal_strlit("tds:HardwareId");
    reveal_strlit("<tds:HardwareId>");
    reveal_strlit("</tds:HardwareId>");
    assert("<tds:Manufacturer>"@ =~= seq!['<'] + "tds:Manufacturer"@ + seq!['>']);
    assert("</tds:Manufacturer>"@ =~= seq!['<', '/'] + "tds:Manufacturer"@ + seq!['>']);
    assert("<tds:Model>"@ =~= seq!['<'] + "tds:Model"@ + seq!['>']);
    assert("</tds:Model>"@ =~= seq!['<', '/'] + "tds:Model"@ + seq!['>']);
    assert("<tds:FirmwareVersion>"@ =~= seq!['<'] + "tds:FirmwareVersion"@ + seq!['>']);
    assert("</tds:FirmwareVersion>"@ =~= seq!['<', '/'] + "tds:FirmwareVersion"@ + seq!['>']);
    assert("<tds:SerialNumber>"@ =~= seq!['<'] + "tds:SerialNumber"@ + seq!['>']);
    assert("</tds:SerialNumber>"@ =~= seq!['<', '/'] + "tds:SerialNumber"@ + seq!['>']);
    assert("<tds:HardwareId>"@ =~= seq!['<'] + "tds:HardwareId"@ + seq!['>']);
    assert("</tds:HardwareId>"@ =~= seq!['<', '/'] + "tds:HardwareId"@ + seq!['>']);
}

/// The device describes itself with the configured firmware and, once the camera is known, with the
/// camera's own serial number and model; the configured serial number and `UVC-G5-Bullet` are told
/// for what is not known.
pub proof fn law_device_information_tells_the_camera(c: OnvifView, identity: Option<IdentityView>)
    ensures
        ({
            let answer = device_information(c, identity);
            &&& tells(answer, "<tds:FirmwareVersion>"@, escaped(c.firmware), "</tds:FirmwareVersion>"@)
            &&& tells(answer, "<tds:Manufacturer>"@, escaped("Ubiquiti"@), "</tds:Manufacturer>"@)
            &&& tells(answer, "<tds:HardwareId>"@, escaped("UVC-G5-Bullet"@), "</tds:HardwareId>"@)
            &&& identity is None ==> tells(answer, "<tds:SerialNumber>"@, escaped(c.serial), "</tds:SerialNumber>"@)
            &&& identity is None ==> tells(answer, "<tds:Model>"@, escaped("UVC-G5-Bullet"@), "</tds:Model>"@)
            &&& identity matches Some(i) ==> tells(
                answer,
                "<tds:SerialNumber>"@,
                escaped(i.serial),
                "</tds:SerialNumber>"@,
            )
            &&& identity is Some && identity->0.model.len() > 0 ==> tells(
                answer,
                "<tds:Model>"@,
                escaped(identity->0.model),
                "</tds:Model>"@,
            )
            &&& identity is Some && identity->0.model.len() == 0 ==> tells(
                answer,
                "<tds:Model>"@,
                escaped("UVC-G5-Bullet"@),
                "</tds:Model>"@,
            )
        }),
{
    let maker = escaped(MANUFACTURER@);
    let model = escaped(told_model(identity));
    let firmware = escaped(c.firmware);
    let serial = escaped(told_serial(c, identity));
    let hardware = escaped(MODEL@);
    let l1 = element_line("tds:Manufacturer"@, maker);
    let l2 = element_line("tds:Model"@, model);
    let l3 = element_line("tds:FirmwareVersion"@, firmware);
    let l4 = element_line("tds:SerialNumber"@, serial);
    let l5 = element_line("tds:HardwareId"@, hardware);
    let w1 = "<tds:Manufacturer>"@ + maker + "</tds:Manufacturer>"@;
    let w2 = "<tds:Model>"@ + model + "</tds:Model>"@;
    let w3 = "<tds:FirmwareVersion>"@ + firmware + "</tds:FirmwareVersion>"@;
    let w4 = "<tds:SerialNumber>"@ + serial + "</tds:SerialNumber>"@;
    let w5 = "<tds:HardwareId>"@ + hardware + "</tds:HardwareId>"@;
    lemma_device_tags();
    lemma_element_is("tds:Manufacturer"@, "<tds:Manufacturer>"@, "</tds:Manufacturer>"@, maker);
    lemma_element_is("tds:Model"@, "<tds:Model>"@, "</tds:Model>"@, model);
    lemma_element_is("tds:FirmwareVersion"@, "<tds:FirmwareVersion>"@, "</tds:FirmwareVersion>"@, firmware);
    lemma_element_is("tds:SerialNumber"@, "<tds:SerialNumber>"@, "</tds:SerialNumber>"@, serial);
    lemma_element_is("tds:HardwareId"@, "<tds:HardwareId>"@, "</tds:HardwareId>"@, hardware);
    lemma_five_lines(l1, l2, l3, l4, l5, w1);
    lemma_five_lines(l1, l2, l3, l4, l5, w2);
    lemma_five_lines(l1, l2, l3, l4, l5, w3);
    lemma_five_lines(l1, l2, l3, l4, l5, w4);
    lemma_five_lines(l1, l2, l3, l4, l5, w5);
    let content = l1 + l2 + l3 + l4 + l5;
    lemma_device_contains(content, w1);
    lemma_device_contains(content, w2);
    lemma_device_contains(content, w3);
    lemma_device_contains(content, w4);
    lemma_device_contains(content, w5);
}

proof fn lemma_five_lines(a: Seq<char>, b: Seq<char>, c: Seq<char>, d: Seq<char>, e: Seq<char>, word: Seq<char>)
    requires
        contains_text(a, word) || contains_text(b, word) || contains_text(c, word) || contains_text(d, word)
            || contains_text(e, word),
    ensures
        contains_text(a + b + c + d + e, word),
{
    lemma_contains_sum(a, b, word);
    lemma_contains_sum(a + b, c, word);
    lemma_contains_sum(a + b + c, d, word);
    lemma_contains_sum(a + b + c + d, e, word);
}

proof fn lemma_device_contains(content: Seq<char>, word: Seq<char>)
    requires
        contains_text(content, word),
    ensures
        contains_text(
            device_message(block_text("tds:GetDeviceInformationResponse"@, content)),
            word,
        ),
{
    lemma_block_contains("tds:GetDeviceInformationResponse"@, content, word);
    lemma_message_contains(
        namespace_text("tds"@, NS_DEVICE@),
        block_text("tds:GetDeviceInformationResponse"@, content),
        word,
    );
}

/// The tags of the elements that tell addresses.
proof fn lemma_service_tags()
    ensures
        "<tds:Namespace>"@ == seq!['<'] + "tds:Namespace"@ + seq!['>'],
        "</tds:Namespace>"@ == seq!['<', '/'] + "tds:Namespace"@ + seq!['>'],
        "<tds:XAddr>"@ == seq!['<'] + "tds:XAddr"@ + seq!['>'],
        "</tds:XAddr>"@ == seq!['<', '/'] + "tds:XAddr"@ + seq!['>'],
        "<tt:XAddrs>"@ == seq!['<'] + "tt:XAddrs"@ + seq!['>'],
        "</tt:XAddrs>"@ == seq!['<', '/'] + "tt:XAddrs"@ + seq!['>'],
        "<tt:Device>"@ == seq!['<'] + "tt:Device"@ + seq!['>'],
        "</tt:Device>"@ == seq!['<', '/'] + "tt:Device"@ + seq!['>'],
        "<tt:Media>"@ == seq!['<'] + "tt:Media"@ + seq!['>'],
        "</tt:Media>"@ == seq!['<', '/'] + "tt:Media"@ + seq!['>'],
        "<tt:Uri>"@ == seq!['<'] + "tt:Uri"@ + seq!['>'],
        "</tt:Uri>"@ == seq!['<', '/'] + "tt:Uri"@ + seq!['>'],
{
    reveal_strlit("tds:Namespace");
    reveal_strlit("<tds:Namespace>");
    reveal_strlit("</tds:Namespace>");
    reveal_strlit("tds:XAddr");
    reveal_strlit("<tds:XAddr>");
    reveal_strlit("</tds:XAddr>");
    reveal_strlit("tt:XAddrs");
    reveal_strlit("<tt:XAddrs>");
    reveal_strlit("</tt:XAddrs>");
    reveal_strlit("tt:Device");
    reveal_strlit("<tt:Device>");
    reveal_strlit("</tt:Device>");
    reveal_strlit("tt:Media");
    reveal_strlit("<tt:Media>");
    reveal_strlit("</tt:Media>");
    reveal_strlit("tt:Uri");
    reveal_strlit("<tt:Uri>");
    reveal_strlit("</tt:Uri>");
    assert("<tds:Namespace>"@ =~= seq!['<'] + "tds:Namespace"@ + seq!['>']);
    assert("</tds:Namespace>"@ =~= seq!['<', '/'] + "tds:Namespace"@ + seq!['>']);
    assert("<tds:XAddr>"@ =~= seq!['<'] + "tds:XAddr"@ + seq!['>']);
    assert("</tds:XAddr>"@ =~= seq!['<', '/'] + "tds:XAddr"@ + seq!['>']);
    assert("<tt:XAddrs>"@ =~= seq!['<'] + "tt:XAddrs"@ + seq!['>']);
    assert("</tt:XAddrs>"@ =~= seq!['<', '/'] + "tt:XAddrs"@ + seq!['>']);
    assert("<tt:Device>"@ =~= seq!['<'] + "tt:Device"@ + seq!['>']);
    assert("</tt:Device>"@ =~= seq!['<', '/'] + "tt:Device"@ + seq!['>']);
    assert("<tt:Media>"@ =~= seq!['<'] + "tt:Media"@ + seq!['>']);
    assert("</tt:Media>"@ =~= seq!['<', '/'] + "tt:Media"@ + seq!['>']);
    assert("<tt:Uri>"@ =~= seq!['<'] + "tt:Uri"@ + seq!['>']);
    assert("</tt:Uri>"@ =~= seq!['<', '/'] + "tt:Uri"@ + seq!['>']);
}

/// The tags of the elements that tell the time.
proof fn lemma_time_tags()
    ensures
        "<tt:Year>"@ == seq!['<'] + "tt:Year"@ + seq!['>'],
        "</tt:Year>"@ == seq!['<', '/'] + "tt:Year"@ + seq!['>'],
        "<tt:Month>"@ == seq!['<'] + "tt:Month"@ + seq!['>'],
        "</tt:Month>"@ == seq!['<', '/'] + "tt:Month"@ + seq!['>'],
        "<tt:Day>"@ == seq!['<'] + "tt:Day"@ + seq!['>'],
        "</tt:Day>"@ == seq!['<', '/'] + "tt:Day"@ + seq!['>'],
        "<tt:Hour>"@ == seq!['<'] + "tt:Hour"@ + seq!['>'],
        "</tt:Hour>"@ == seq!['<', '/'] + "tt:Hour"@ + seq!['>'],
        "<tt:Minute>"@ == seq!['<'] + "tt:Minute"@ + seq!['>'],
        "</tt:Minute>"@ == seq!['<', '/'] + "tt:Minute"@ + seq!['>'],
        "<tt:Second>"@ == seq!['<'] + "tt:Second"@ + seq!['>'],
        "</tt:Second>"@ == seq!['<', '/'] + "tt:Second"@ + seq!['>'],
{
    reveal_strlit("tt:Year");
    reveal_strlit("<tt:Year>");
    reveal_strlit("</tt:Year>");
    reveal_strlit("tt:Month");
    reveal_strlit("<tt:Month>");
    reveal_strlit("</tt:Month>");
    reveal_strlit("tt:Day");
    reveal_strlit("<tt:Day>");
    reveal_strlit("</tt:Day>");
    reveal_strlit("tt:Hour");
    reveal_strlit("<tt:Hour>");
    reveal_strlit("</tt:Hour>");
    reveal_strlit("tt:Minute");
    reveal_strlit("<tt:Minute>");
    reveal_strlit("</tt:Minute>");
    reveal_strlit("tt:Second");
    reveal_strlit("<tt:Second>");
    reveal_strlit("</tt:Second>");
    assert("<tt:Year>"@ =~= seq!['<'] + "tt:Year"@ + seq!['>']);
    assert("</tt:Year>"@ =~= seq!['<', '/'] + "tt:Year"@ + seq!['>']);
    assert("<tt:Month>"@ =~= seq!['<'] + "tt:Month"@ + seq!['>']);
    assert("</tt:Month>"@ =~= seq!['<', '/'] + "tt:Month"@ + seq!['>']);
    assert("<tt:Day>"@ =~= seq!['<'] + "tt:Day"@ + seq!['>']);
    assert("</tt:Day>"@ =~= seq!['<', '/'] + "tt:Day"@ + seq!['>']);
    assert("<tt:Hour>"@ =~= seq!['<'] + "tt:Hour"@ + seq!['>']);
    assert("</tt:Hour>"@ =~= seq!['<', '/'] + "tt:Hour"@ + seq!['>']);
    assert("<tt:Minute>"@ =~= seq!['<'] + "tt:Minute"@ + seq!['>']);
    assert("</tt:Minute>"@ =~= seq!['<', '/'] + "tt:Minute"@ + seq!['>']);
    assert("<tt:Second>"@ =~= seq!['<'] + "tt:Second"@ + seq!['>']);
    assert("</tt:Second>"@ =~= seq!['<', '/'] + "tt:Second"@ + seq!['>']);
}

/// The address of a service: the server's, with the port of the web services and a path.
pub open spec fn web_address(c: OnvifView, path: Seq<char>) -> Seq<char> {
    "http://"@ + escaped(c.server_ip) + ":"@ + decimal(c.onvif_port as nat) + path
}

proof fn lemma_schema_message_contains(name: Seq<char>, content: Seq<char>, word: Seq<char>)
    requires
        contains_text(content, word),
    ensures
        contains_text(device_schema_message(block_text(name, content)), word),
{
    lemma_block_contains(name, content, word);
    lemma_message_contains(
        namespace_text("tds"@, NS_DEVICE@) + namespace_text("tt"@, NS_SCHEMA@),
        block_text(name, content),
        word,
    );
}

proof fn lemma_service_entry_tells(namespace: Seq<char>, address: Seq<char>)
    ensures
        contains_text(
            service_entry(namespace, address),
            "<tds:Namespace>"@ + namespace + "</tds:Namespace>"@ + "\n"@ + "<tds:XAddr>"@ + address + "</tds:XAddr>"@,
        ),
{
    let word = "<tds:Namespace>"@ + namespace + "</tds:Namespace>"@ + "\n"@ + "<tds:XAddr>"@ + address
        + "</tds:XAddr>"@;
    let a = element_line("tds:Namespace"@, namespace);
    let b = element_line("tds:XAddr"@, address);
    let version = element_line(
        "tds:Version"@,
        element_text("tt:Major"@, "20"@) + element_text("tt:Minor"@, "12"@),
    );
    lemma_service_tags();
    lemma_element_is("tds:Namespace"@, "<tds:Namespace>"@, "</tds:Namespace>"@, namespace);
    lemma_element_is("tds:XAddr"@, "<tds:XAddr>"@, "</tds:XAddr>"@, address);
    assert(a + b =~= word + "\n"@);
    lemma_contains_itself(word);
    lemma_contains_sum(word, "\n"@, word);
    lemma_contains_sum(a + b, version, word);
    lemma_block_contains("tds:Service"@, a + b + version, word);
}

/// The device and the media service are each told with the address of their own path.
pub proof fn law_services_are_told_with_their_addresses(c: OnvifView)
    ensures
        ({
            let device = web_address(c, c.device_service_path);
            let media = web_address(c, c.media_service_path);
            &&& contains_text(
                services(c),
                "<tds:Namespace>"@ + "http://www.onvif.org/ver10/device/wsdl"@ + "</tds:Namespace>"@ + "\n"@
                    + "<tds:XAddr>"@ + device + "</tds:XAddr>"@,
            )
            &&& contains_text(
                services(c),
                "<tds:Namespace>"@ + "http://www.onvif.org/ver10/media/wsdl"@ + "</tds:Namespace>"@ + "\n"@
                    + "<tds:XAddr>"@ + media + "</tds:XAddr>"@,
            )
            &&& contains_text(
                capabilities(c),
                "<tt:Device>"@ + ("<tt:XAddrs>"@ + device + "</tt:XAddrs>"@) + "</tt:Device>"@,
            )
            &&& contains_text(
                capabilities(c),
                "<tt:Media>"@ + ("<tt:XAddrs>"@ + media + "</tt:XAddrs>"@) + "</tt:Media>"@,
            )
        }),
{
    let device = web_address(c, c.device_service_path);
    let media = web_address(c, c.media_service_path);
    let a = service_entry(NS_DEVICE@, device);
    let b = service_entry(NS_MEDIA@, media);
    let w1 = "<tds:Namespace>"@ + NS_DEVICE@ + "</tds:Namespace>"@ + "\n"@ + "<tds:XAddr>"@ + device + "</tds:XAddr>"@;
    let w2 = "<tds:Namespace>"@ + NS_MEDIA@ + "</tds:Namespace>"@ + "\n"@ + "<tds:XAddr>"@ + media + "</tds:XAddr>"@;
    lemma_service_entry_tells(NS_DEVICE@, device);
    lemma_service_entry_tells(NS_MEDIA@, media);
    lemma_contains_sum(a, b, w1);
    lemma_contains_sum(a, b, w2);
    lemma_schema_message_contains("tds:GetServicesResponse"@, a + b, w1);
    lemma_schema_message_contains("tds:GetServicesResponse"@, a + b, w2);
    lemma_service_tags();
    let x = element_text("tt:XAddrs"@, device);
    let y = element_text("tt:XAddrs"@, media);
    lemma_element_is("tt:XAddrs"@, "<tt:XAddrs>"@, "</tt:XAddrs>"@, device);
    lemma_element_is("tt:XAddrs"@, "<tt:XAddrs>"@, "</tt:XAddrs>"@, media);
    lemma_element_is("tt:Device"@, "<tt:Device>"@, "</tt:Device>"@, x);
    lemma_element_is("tt:Media"@, "<tt:Media>"@, "</tt:Media>"@, y);
    let d = element_line("tt:Device"@, x);
    let m = element_line("tt:Media"@, y);
    let w3 = "<tt:Device>"@ + x + "</tt:Device>"@;
    let w4 = "<tt:Media>"@ + y + "</tt:Media>"@;
    lemma_contains_sum(d, m, w3);
    lemma_contains_sum(d, m, w4);
    lemma_block_contains("tt:Capabilities"@, d + m, w3);
    lemma_block_contains("tt:Capabilities"@, d + m, w4);
    let inner = block_text("tt:Capabilities"@, d + m);
    lemma_schema_message_contains("tds:GetCapabilitiesResponse"@, inner, w3);
    lemma_schema_message_contains("tds:GetCapabilitiesResponse"@, inner, w4);
}

/// The stream's address is the server's, with the RTSP port and the path `/stream`.
pub proof fn law_stream_is_told_with_its_address(c: OnvifView)
    ensures
        ({
            let address = "rtsp://"@ + escaped(c.server_ip) + ":"@ + decimal(c.rtsp_port as nat) + "/stream"@;
            &&& tells(
                media_uri("trt:GetStreamUriResponse"@, stream_address(c)),
                "<tt:Uri>"@,
                address,
                "</tt:Uri>"@,
            )
            &&& tells(
                media_uri("trt:GetSnapshotUriResponse"@, stream_address(c)),
                "<tt:Uri>"@,
                address,
                "</tt:Uri>"@,
            )
        }),
{
    lemma_service_tags();
    lemma_element_is("tt:Uri"@, "<tt:Uri>"@, "</tt:Uri>"@, stream_address(c));
    law_answers_tell_one_address(c, "trt:GetStreamUriResponse"@);
    law_answers_tell_one_address(c, "trt:GetSnapshotUriResponse"@);
}

/// The time that is told is the time that it is: year, month and day of the date, and hour, minute
/// and second of the day, each in an element of its own.
pub proof fn law_time_is_told(year: int, month: int, day: int, hour: int, minute: int, second: int)
    requires
        is_date(year, month, day),
        year >= 0,
        0 <= hour < 24,
        0 <= minute < 60,
        0 <= second < 60,
    ensures
        ({
            let answer = system_date_and_time(
                day_number(year, month, day) * 86400 + (hour * 60 + minute) * 60 + second,
            );
            &&& tells(answer, "<tt:Year>"@, decimal(year as nat), "</tt:Year>"@)
            &&& tells(answer, "<tt:Month>"@, decimal(month as nat), "</tt:Month>"@)
            &&& tells(answer, "<tt:Day>"@, decimal(day as nat), "</tt:Day>"@)
            &&& tells(answer, "<tt:Hour>"@, decimal(hour as nat), "</tt:Hour>"@)
            &&& tells(answer, "<tt:Minute>"@, decimal(minute as nat), "</tt:Minute>"@)
            &&& tells(answer, "<tt:Second>"@, decimal(second as nat), "</tt:Second>"@)
        }),
{
    let secs = day_number(year, month, day) * 86400 + (hour * 60 + minute) * 60 + second;
    lemma_civil(year, month, day);
    lemma_seconds_of_day(day_number(year, month, day), hour, minute, second);
    let date = number_element("tt:Year"@, year) + number_element("tt:Month"@, month) + number_element(
        "tt:Day"@,
        day,
    );
    let time = number_element("tt:Hour"@, hour) + number_element("tt:Minute"@, minute) + number_element(
        "tt:Second"@,
        second,
    );
    assert(system_date_and_time(secs) == clock_answer(date, time));
    lemma_date_is_told(year, month, day, time);
    lemma_time_of_day_is_told(hour, minute, second, date);
}

proof fn lemma_seconds_of_day(days: int, hour: int, minute: int, second: int)
    requires
        0 <= hour < 24,
        0 <= minute < 60,
        0 <= second < 60,
    ensures
        ({
            let secs = days * 86400 + (hour * 60 + minute) * 60 + second;
            &&& secs / 86400 == days
            &&& secs % 86400 / 3600 == hour
            &&& secs % 3600 / 60 == minute
            &&& secs % 60 == second
        }),
{
}

proof fn lemma_date_is_told(year: int, month: int, day: int, time: Seq<char>)
    ensures
        ({
            let date = number_element("tt:Year"@, year) + number_element("tt:Month"@, month) + number_element(
                "tt:Day"@,
                day,
            );
            let answer = clock_answer(date, time);
            &&& tells(answer, "<tt:Year>"@, decimal(year as nat), "</tt:Year>"@)
            &&& tells(answer, "<tt:Month>"@, decimal(month as nat), "</tt:Month>"@)
            &&& tells(answer, "<tt:Day>"@, decimal(day as nat), "</tt:Day>"@)
        }),
{
    lemma_time_tags();
    let e1 = number_element("tt:Year"@, year);
    let e2 = number_element("tt:Month"@, month);
    let e3 = number_element("tt:Day"@, day);
    lemma_element_is("tt:Year"@, "<tt:Year>"@, "</tt:Year>"@, decimal(year as nat));
    lemma_element_is("tt:Month"@, "<tt:Month>"@, "</tt:Month>"@, decimal(month as nat));
    lemma_element_is("tt:Day"@, "<tt:Day>"@, "</tt:Day>"@, decimal(day as nat));
    lemma_three(e1, e2, e3);
    lemma_time_contains(e1 + e2 + e3, time, e1);
    lemma_time_contains(e1 + e2 + e3, time, e2);
    lemma_time_contains(e1 + e2 + e3, time, e3);
}

proof fn lemma_time_of_day_is_told(hour: int, minute: int, second: int, date: Seq<char>)
    ensures
        ({
            let time = number_element("tt:Hour"@, hour) + number_element("tt:Minute"@, minute) + number_element(
                "tt:Second"@,
                second,
            );
            let answer = clock_answer(date, time);
            &&& tells(answer, "<tt:Hour>"@, decimal(hour as nat), "</tt:Hour>"@)
            &&& tells(answer, "<tt:Minute>"@, decimal(minute as nat), "</tt:Minute>"@)
            &&& tells(answer, "<tt:Second>"@, decimal(second as nat), "</tt:Second>"@)
        }),
{
    lemma_time_tags();
    let e4 = number_element("tt:Hour"@, hour);
    let e5 = number_element("tt:Minute"@, minute);
    let e6 = number_element("tt:Second"@, second);
    lemma_element_is("tt:Hour"@, "<tt:Hour>"@, "</tt:Hour>"@, decimal(hour as nat));
    lemma_element_is("tt:Minute"@, "<tt:Minute>"@, "</tt:Minute>"@, decimal(minute as nat));
    lemma_element_is("tt:Second"@, "<tt:Second>"@, "</tt:Second>"@, decimal(second as nat));
    lemma_three(e4, e5, e6);
    lemma_time_contains(date, e4 + e5 + e6, e4);
    lemma_time_contains(date, e4 + e5 + e6, e5);
    lemma_time_contains(date, e4 + e5 + e6, e6);
}

proof fn lemma_three(a: Seq<char>, b: Seq<char>, c: Seq<char>)
    ensures
        contains_text(a + b + c, a),
        contains_text(a + b + c, b),
        contains_text(a + b + c, c),
{
    lemma_contains_itself(a);
    lemma_contains_itself(b);
    lemma_contains_itself(c);
    lemma_contains_sum(a, b, a);
    lemma_contains_sum(a, b, b);
    lemma_contains_sum(a + b, c, a);
    lemma_contains_sum(a + b, c, b);
    lemma_contains_sum(a + b, c, c);
}

/// The answer that tells the time, around its date and its time of day.
spec fn clock_answer(date: Seq<char>, time: Seq<char>) -> Seq<char> {
    device_schema_message(
        block_text(
            "tds:GetSystemDateAndTimeResponse"@,
            block_text(
                "tt:SystemDateAndTime"@,
                element_line("tt:DateTimeType"@, "NTP"@) + element_line("tt:DayTimeSavings"@, "false"@) + element_line(
                    "tt:TimeZone"@,
                    element_text("tt:TZ"@, "GMT0"@),
                ) + block_text("tt:UTCDateTime"@, element_line("tt:Date"@, date) + element_line("tt:Time"@, time)),
            ),
        ),
    )
}

proof fn lemma_time_contains(date: Seq<char>, time: Seq<char>, word: Seq<char>)
    ensures
        contains_text(date, word) || contains_text(time, word) ==> contains_text(clock_answer(date, time), word),
{
    if contains_text(date, word) || contains_text(time, word) {
        let a = element_line("tt:Date"@, date);
        let b = element_line("tt:Time"@, time);
        if contains_text(date, word) {
            lemma_line_contains("tt:Date"@, date, word);
        } else {
            lemma_line_contains("tt:Time"@, time, word);
        }
        lemma_contains_sum(a, b, word);
        let utc = block_text("tt:UTCDateTime"@, a + b);
        lemma_block_contains("tt:UTCDateTime"@, a + b, word);
        let before = element_line("tt:DateTimeType"@, "NTP"@) + element_line("tt:DayTimeSavings"@, "false"@)
            + element_line("tt:TimeZone"@, element_text("tt:TZ"@, "GMT0"@));
        lemma_contains_sum(before, utc, word);
        let inner = block_text("tt:SystemDateAndTime"@, before + utc);
        lemma_block_contains("tt:SystemDateAndTime"@, before + utc, word);
        lemma_schema_message_contains("tds:GetSystemDateAndTimeResponse"@, inner, word);
    }
}

/// The names of the operations' responses, as they stand in the answers.
pub(crate) proof fn lemma_response_name(prefix: Seq<char>, name: Seq<char>, content: Seq<char>)
    ensures
        contains_text(block_text(prefix + name, content), name),
{
    lemma_contains_itself(name);
    lemma_contains_sum(prefix, name, name);
    let open = "<"@ + (prefix + name) + Seq::<char>::empty() + ">"@;
    assert(open =~= "<"@ + (prefix + name) + ">"@);
    lemma_contains_sum("<"@, prefix + name, name);
    lemma_contains_sum("<"@ + (prefix + name), ">"@, name);
    let rest = "\n"@ + content + "</"@ + (prefix + name) + ">"@ + "\n"@;
    lemma_contains_sum(open, rest, name);
    assert(block_text(prefix + name, content) =~= open + rest);
}

} // verus!
