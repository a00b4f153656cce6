//! WS-Discovery: how the proxy announces itself, and how it answers who asks for devices.

use crate::text::{
    chars_of, contains, contains_text, find, find_char, find_from, hex2_lower, law_find_from_is_first, position,
    push_hex2_lower, string_of, trim, trimmed, utf8_text,
};
use crate::xml::{
    block, block_text, element_line, element_with, escaped, namespace_text, push_element_with, push_line,
    push_namespace, xml_escape, NS_ADDRESSING, NS_ENVELOPE,
};
use vstd::prelude::*;
use vstd::slice::slice_subrange;
use vstd::utf8::{decode_utf8, valid_utf8};

verus! {

/// Port of the multicast group.
pub const MULTICAST_PORT: u16 = 3702;

/// Type of a streaming device.
pub const DEVICE_TYPE: &'static str = "tns:NetworkVideoTransmitter";

/// Type of any ONVIF device.
pub const DEVICE_TYPE_DEVICE: &'static str = "tds:Device";

/// Scope of streaming devices.
pub const SCOPE_STREAMING: &'static str = "onvif://www.onvif.org/Profile/Streaming";

/// Scope that names the hardware.
pub const SCOPE_HARDWARE: &'static str = "onvif://www.onvif.org/hardware/UVC-G5-Bullet";

/// Scope that names the device.
pub const SCOPE_NAME: &'static str = "onvif://www.onvif.org/name/flvproxy";

/// WS-Discovery.
pub const NS_DISCOVERY: &'static str = "http://schemas.xmlsoap.org/ws/2005/04/discovery";

/// Action of an announcement.
pub const ACTION_HELLO: &'static str = "http://schemas.xmlsoap.org/ws/2005/04/discovery/Hello";

/// Action of a leave-taking.
pub const ACTION_BYE: &'static str = "http://schemas.xmlsoap.org/ws/2005/04/discovery/Bye";

/// Action of an answer.
pub const ACTION_PROBE_MATCH: &'static str = "http://schemas.xmlsoap.org/ws/2005/04/discovery/ProbeMatches";

/// Action of a question.
pub const ACTION_PROBE: &'static str = "http://schemas.xmlsoap.org/ws/2005/04/discovery/Probe";

/// What the device tells of itself.
pub open spec fn device_lines(xaddr: Seq<char>, device_addr: Seq<char>) -> Seq<char> {
    block_text("wsa:EndpointReference"@, element_line("wsa:Address"@, escaped(device_addr))) + element_line(
        "wsdiscovery:Types"@,
        DEVICE_TYPE@ + " "@ + DEVICE_TYPE_DEVICE@,
    ) + element_line("wsdiscovery:Scopes"@, SCOPE_STREAMING@ + " "@ + SCOPE_HARDWARE@ + " "@ + SCOPE_NAME@)
        + element_line("wsdiscovery:XAddrs"@, escaped(xaddr)) + element_line("wsdiscovery:MetadataVersion"@, "1"@)
}

/// The header of a message.
pub open spec fn header_lines(action: Seq<char>, relates: Seq<char>) -> Seq<char> {
    element_line("wsa:Action"@, action) + relates + "\n"@ + element_line(
        "wsa:To"@,
        "urn:docs-oasis-open-org:ws-sx:ws-discovery"@,
    ) + "<wsdiscovery:AppSequence InstanceId=\"1\" MessageNumber=\"1\"/>\n"@
}

/// A WS-Discovery message.
pub open spec fn envelope(action: Seq<char>, relates: Seq<char>, body: Seq<char>) -> Seq<char> {
    "<?xml version=\"1.0\" encoding=\"UTF-8\"?>\n"@ + element_with(
        "s:Envelope"@,
        namespace_text("s"@, NS_ENVELOPE@) + namespace_text("wsa"@, NS_ADDRESSING@) + namespace_text(
            "wsdiscovery"@,
            NS_DISCOVERY@,
        ),
        "\n"@ + block_text("s:Header"@, header_lines(action, relates)) + block_text("s:Body"@, body),
    )
}

/// The element that says which question is answered.
pub open spec fn relation(relates_to: Option<Seq<char>>) -> Seq<char> {
    match relates_to {
        Some(id) => element_with("wsa:RelatesTo"@, Seq::empty(), escaped(id)),
        None => Seq::empty(),
    }
}

/// The answer to a question.
pub open spec fn probe_match(xaddr: Seq<char>, device_addr: Seq<char>, relates_to: Option<Seq<char>>) -> Seq<char> {
    envelope(
        ACTION_PROBE_MATCH@,
        relation(relates_to),
        block_text(
            "wsdiscovery:ProbeMatches"@,
            block_text("wsdiscovery:ProbeMatch"@, device_lines(xaddr, device_addr)),
        ),
    )
}

/// An announcement or a leave-taking.
pub open spec fn notice(action: Seq<char>, name: Seq<char>, xaddr: Seq<char>, device_addr: Seq<char>) -> Seq<char> {
    envelope(action, Seq::empty(), block_text(name, "\n"@ + device_lines(xaddr, device_addr) + "\n"@))
}

/// Writes what the device tells of itself.
fn device_text(xaddr: &str, device_addr: &str) -> (r: String)
    ensures
        r@ == device_lines(xaddr@, device_addr@),
{
    let xaddrs = xml_escape(xaddr);
    let endpoint = xml_escape(device_addr);
    let mut address = String::new();
    push_line(&mut address, "wsa:Address", endpoint.as_str());
    assert(address@ =~= element_line("wsa:Address"@, endpoint@));
    let mut types = DEVICE_TYPE.to_owned();
    types.append(" ");
    types.append(DEVICE_TYPE_DEVICE);
    let mut scopes = SCOPE_STREAMING.to_owned();
    scopes.append(" ");
    scopes.append(SCOPE_HARDWARE);
    scopes.append(" ");
    scopes.append(SCOPE_NAME);
    let mut out = block("wsa:EndpointReference", address.as_str());
    push_line(&mut out, "wsdiscovery:Types", types.as_str());
    push_line(&mut out, "wsdiscovery:Scopes", scopes.as_str());
    push_line(&mut out, "wsdiscovery:XAddrs", xaddrs.as_str());
    push_line(&mut out, "wsdiscovery:MetadataVersion", "1");
    out
}

/// Writes a WS-Discovery message.
pub fn build_envelope(action: &str, relates: &str, body: &str) -> (r: String)
    ensures
        r@ == envelope(action@, relates@, body@),
{
    let mut header = String::new();
    push_line(&mut header, "wsa:Action", action);
    header.append(relates);
    header.append("\n");
    push_line(&mut header, "wsa:To", "urn:docs-oasis-open-org:ws-sx:ws-discovery");
    header.append("<wsdiscovery:AppSequence InstanceId=\"1\" MessageNumber=\"1\"/>\n");
    assert(header@ =~= header_lines(action@, relates@));
    let head = block("s:Header", header.as_str());
    let tail = block("s:Body", body);
    let mut content = "\n".to_owned();
    content.append(head.as_str());
    content.append(tail.as_str());
    let mut namespaces = String::new();
    push_namespace(&mut namespaces, "s", NS_ENVELOPE);
    push_namespace(&mut namespaces, "wsa", NS_ADDRESSING);
    push_namespace(&mut namespaces, "wsdiscovery", NS_DISCOVERY);
    assert(namespaces@ =~= namespace_text("s"@, NS_ENVELOPE@) + namespace_text("wsa"@, NS_ADDRESSING@)
        + namespace_text("wsdiscovery"@, NS_DISCOVERY@));
    let mut out = "<?xml version=\"1.0\" encoding=\"UTF-8\"?>\n".to_owned();
    push_element_with(&mut out, "s:Envelope", namespaces.as_str(), content.as_str());
    out
}

/// What an optional text stands for.
pub open spec fn optional_text(t: Option<&str>) -> Option<Seq<char>> {
    match t {
        Some(s) => Some(s@),
        None => None,
    }
}

/// Writes the answer to a question. `relates_to` is the question's id, where it has one.
pub fn build_probe_match(xaddr: &str, device_addr: &str, relates_to: Option<&str>) -> (r: String)
    ensures
        r@ == probe_match(xaddr@, device_addr@, optional_text(relates_to)),
{
    let none = String::new();
    assert(none@ =~= Seq::empty());
    let mut relates = String::new();
    if let Some(id) = relates_to {
        let text = xml_escape(id);
        push_element_with(&mut relates, "wsa:RelatesTo", none.as_str(), text.as_str());
    }
    assert(relates@ =~= relation(optional_text(relates_to)));
    let device = device_text(xaddr, device_addr);
    let inner = block("wsdiscovery:ProbeMatch", device.as_str());
    let body = block("wsdiscovery:ProbeMatches", inner.as_str());
    build_envelope(ACTION_PROBE_MATCH, relates.as_str(), body.as_str())
}

fn build_notice(action: &str, name: &str, xaddr: &str, device_addr: &str) -> (r: String)
    ensures
        r@ == notice(action@, name@, xaddr@, device_addr@),
{
    let device = device_text(xaddr, device_addr);
    let mut content = "\n".to_owned();
    content.append(device.as_str());
    content.append("\n");
    let body = block(name, content.as_str());
    let none = String::new();
    assert(none@ =~= Seq::empty());
    build_envelope(action, none.as_str(), body.as_str())
}

/// Writes an announcement.
pub fn build_hello(xaddr: &str, device_addr: &str) -> (r: String)
    ensures
        r@ == notice(ACTION_HELLO@, "wsdiscovery:Hello"@, xaddr@, device_addr@),
{
    build_notice(ACTION_HELLO, "wsdiscovery:Hello", xaddr, device_addr)
}

/// Writes a leave-taking.
pub fn build_bye(xaddr: &str, device_addr: &str) -> (r: String)
    ensures
        r@ == notice(ACTION_BYE@, "wsdiscovery:Bye"@, xaddr@, device_addr@),
{
    build_notice(ACTION_BYE, "wsdiscovery:Bye", xaddr, device_addr)
}

/// What tells a question: its action, as all that an element holds.
pub open spec fn probe_mark() -> Seq<char> {
    ">"@ + ACTION_PROBE@ + "<"@
}

/// The id of a message: what the first element called `MessageID` holds, whatever its prefix and its
/// attributes. Empty where there is none.
pub open spec fn message_id_in(xml: Seq<char>) -> Seq<char> {
    match find_from(xml, "MessageID"@, 0) {
        Some(i) => match position(xml.skip(i), '>') {
            Some(gt) => {
                let rest = xml.skip(i + gt + 1);
                match position(rest, '<') {
                    Some(lt) => trimmed(rest.take(lt)),
                    None => Seq::empty(),
                }
            },
            None => Seq::empty(),
        },
        None => Seq::empty(),
    }
}

/// The id of a datagram, if it is a question.
pub open spec fn probe_id(datagram: Seq<u8>) -> Option<Seq<char>> {
    if valid_utf8(datagram) && contains_text(decode_utf8(datagram), probe_mark()) {
        Some(message_id_in(decode_utf8(datagram)))
    } else {
        None
    }
}

/// Reads the id of a message.
pub fn extract_message_id(xml: &str) -> (r: String)
    ensures
        r@ == message_id_in(xml@),
{
    let none = String::new();
    assert(none@ =~= Seq::empty());
    let chars = chars_of(xml);
    let total: usize = chars.len();
    let name = chars_of("MessageID");
    let at: usize = match find(chars.as_slice(), name.as_slice(), 0) {
        Some(i) => i,
        None => return none,
    };
    proof {
        law_find_from_is_first(xml@, "MessageID"@, 0);
    }
    let from = slice_subrange(chars.as_slice(), at, total);
    assert(from@ =~= xml@.skip(at as int));
    let gt: usize = match find_char(from, '>') {
        Some(i) => i,
        None => return none,
    };
    let start: usize = at + gt + 1;
    let rest = slice_subrange(chars.as_slice(), start, total);
    assert(rest@ =~= xml@.skip(start as int));
    let lt: usize = match find_char(rest, '<') {
        Some(i) => i,
        None => return none,
    };
    let content = slice_subrange(rest, 0, lt);
    assert(content@ =~= rest@.take(lt as int));
    let inner = trim(content);
    let inner_len: usize = inner.len();
    let r = string_of(inner, 0, inner_len);
    assert(r@ =~= inner@);
    r
}

/// Reads the id of a datagram, if it is a question; it may be empty.
pub fn parse_probe(buf: &[u8]) -> (r: Option<String>)
    ensures
        match probe_id(buf@) {
            Some(id) => r matches Some(t) && t@ == id,
            None => r is None,
        },
{
    let text = match utf8_text(buf) {
        Some(t) => t,
        None => return None,
    };
    let mut mark = ">".to_owned();
    mark.append(ACTION_PROBE);
    mark.append("<");
    if contains(text, mark.as_str()) {
        Some(extract_message_id(text))
    } else {
        None
    }
}

/// The answer to a datagram, if it is a question.
pub open spec fn answer_to(datagram: Seq<u8>, xaddr: Seq<char>, device_addr: Seq<char>) -> Option<Seq<char>> {
    match probe_id(datagram) {
        Some(id) => Some(
            probe_match(
                xaddr,
                device_addr,
                if id.len() == 0 {
                    None
                } else {
                    Some(id)
                },
            ),
        ),
        None => None,
    }
}

/// Answers a datagram, if it is a question. A question without an id is answered without one.
pub fn reply_to(buf: &[u8], xaddr: &str, device_addr: &str) -> (r: Option<String>)
    ensures
        match answer_to(buf@, xaddr@, device_addr@) {
            Some(xml) => r matches Some(t) && t@ == xml,
            None => r is None,
        },
{
    match parse_probe(buf) {
        Some(id) => {
            let id_len: usize = chars_of(id.as_str()).len();
            let relates = if id_len == 0 {
                None
            } else {
                Some(id.as_str())
            };
            Some(build_probe_match(xaddr, device_addr, relates))
        },
        None => None,
    }
}

/// `a * b`, without what does not fit.
pub open spec fn product32(a: u32, b: u32) -> u32 {
    (a as int * b as int % 0x1_0000_0000) as u32
}

/// `a + b`, without what does not fit.
pub open spec fn sum32(a: u32, b: u32) -> u32 {
    ((a + b) % 0x1_0000_0000) as u32
}

fn wrapping_product32(a: u32, b: u32) -> (r: u32)
    ensures
        r == product32(a, b),
{
    assert(a as int * b as int <= 0xFFFF_FFFF * 0xFFFF_FFFF) by (nonlinear_arith)
        requires
            0 <= a <= 0xFFFF_FFFF,
            0 <= b <= 0xFFFF_FFFF,
    ;
    (a as u64 * b as u64 % 0x1_0000_0000) as u32
}

fn wrapping_sum32(a: u32, b: u32) -> (r: u32)
    ensures
        r == sum32(a, b),
{
    ((a as u64 + b as u64) % 0x1_0000_0000) as u32
}

/// Step between two states, and what a seed is multiplied with.
pub const GOLDEN_RATIO_32: u32 = 0x9E37_79B9;

/// What a state is spread to.
pub open spec fn spread(state: u32) -> u32 {
    let a = product32(state ^ (state >> 16), 0x7FEB_A7F3);
    let b = product32(a ^ (a >> 15), 0x846C_A68B);
    b ^ (b >> 16)
}

/// The state after `k` steps.
pub open spec fn state_after(seed: u32, k: nat) -> u32
    decreases k,
{
    if k == 0 {
        seed
    } else {
        sum32(state_after(seed, (k - 1) as nat), GOLDEN_RATIO_32)
    }
}

/// The bytes that a seed gives: the lowest byte of each state, spread.
pub open spec fn random_bytes(seed: u32, count: nat) -> Seq<u8> {
    Seq::new(count, |i: int| (spread(state_after(seed, (i + 1) as nat)) % 256) as u8)
}

/// Makes bytes from a seed.
pub fn fill_random(seed: u32, count: usize) -> (r: Vec<u8>)
    ensures
        r@ == random_bytes(seed, count as nat),
{
    let mut out: Vec<u8> = Vec::new();
    let mut state: u32 = seed;
    let mut i: usize = 0;
    while i < count
        invariant
            i <= count,
            state == state_after(seed, i as nat),
            out@ == random_bytes(seed, i as nat),
        decreases count - i,
    {
        state = wrapping_sum32(state, GOLDEN_RATIO_32);
        let a: u32 = wrapping_product32(state ^ (state >> 16), 0x7FEB_A7F3);
        let b: u32 = wrapping_product32(a ^ (a >> 15), 0x846C_A68B);
        let z: u32 = b ^ (b >> 16);
        out.push((z % 256) as u8);
        i += 1;
        assert(out@ =~= random_bytes(seed, i as nat));
    }
    out
}

/// The seed that a clock and an address give.
pub open spec fn seed_from(nanos: u32, addr: u32) -> u32 {
    product32(sum32(nanos, addr), GOLDEN_RATIO_32)
}

/// Combines the clock with an address of the process.
pub fn seed_value(nanos: u32, addr: u32) -> (r: u32)
    ensures
        r == seed_from(nanos, addr),
{
    wrapping_product32(wrapping_sum32(nanos, addr), GOLDEN_RATIO_32)
}

/// The bytes of a version 4 UUID: random, but for the version and the variant.
pub open spec fn uuid_bytes(random: Seq<u8>) -> Seq<u8> {
    random.update(6, (random[6] % 16 + 0x40) as u8).update(8, (random[8] % 64 + 0x80) as u8)
}

/// Bytes as hexadecimal digits.
pub open spec fn hex_text(bytes: Seq<u8>) -> Seq<char>
    decreases bytes.len(),
{
    if bytes.len() == 0 {
        Seq::empty()
    } else {
        hex_text(bytes.drop_last()) + hex2_lower(bytes.last())
    }
}

/// A UUID as text.
pub open spec fn uuid_text(b: Seq<u8>) -> Seq<char> {
    hex_text(b.subrange(0, 4)) + "-"@ + hex_text(b.subrange(4, 6)) + "-"@ + hex_text(b.subrange(6, 8)) + "-"@ + hex_text(
        b.subrange(8, 10),
    ) + "-"@ + hex_text(b.subrange(10, 16))
}

fn push_hex(out: &mut String, bytes: &[u8], from: usize, to: usize)
    requires
        from <= to <= bytes@.len(),
    ensures
        final(out)@ == old(out)@ + hex_text(bytes@.subrange(from as int, to as int)),
{
    let mut i: usize = from;
    assert(bytes@.subrange(from as int, from as int) =~= Seq::empty());
    assert(out@ =~= old(out)@ + hex_text(bytes@.subrange(from as int, from as int)));
    while i < to
        invariant
            from <= i <= to <= bytes@.len(),
            out@ == old(out)@ + hex_text(bytes@.subrange(from as int, i as int)),
        decreases to - i,
    {
        push_hex2_lower(out, bytes[i]);
        proof {
            let longer = bytes@.subrange(from as int, i + 1);
            assert(longer.drop_last() =~= bytes@.subrange(from as int, i as int));
            assert(longer.last() == bytes@[i as int]);
        }
        i += 1;
        assert(out@ =~= old(out)@ + hex_text(bytes@.subrange(from as int, i as int)));
    }
}

/// The device address that a seed gives: a version 4 UUID.
pub fn random_device_addr(seed: u32) -> (r: String)
    ensures
        r@ == "urn:uuid:"@ + uuid_text(uuid_bytes(random_bytes(seed, 16))),
{
    let mut bytes = fill_random(seed, 16);
    let version: u8 = bytes[6] % 16 + 0x40;
    let variant: u8 = bytes[8] % 64 + 0x80;
    bytes.set(6, version);
    bytes.set(8, variant);
    assert(bytes@ =~= uuid_bytes(random_bytes(seed, 16)));
    let mut out = "urn:uuid:".to_owned();
    push_hex(&mut out, bytes.as_slice(), 0, 4);
    out.append("-");
    push_hex(&mut out, bytes.as_slice(), 4, 6);
    out.append("-");
    push_hex(&mut out, bytes.as_slice(), 6, 8);
    out.append("-");
    push_hex(&mut out, bytes.as_slice(), 8, 10);
    out.append("-");
    push_hex(&mut out, bytes.as_slice(), 10, 16);
    assert(out@ =~= "urn:uuid:"@ + uuid_text(bytes@));
    out
}

/// How discovery announces the proxy.
#[derive(Debug, Clone)]
pub struct DiscoveryConfig {
    /// Address of the Device service.
    pub xaddr: String,
    /// Address of the device, which stays the same while the process runs.
    pub device_addr: String,
    /// Address of the interface to join the group on; the system's choice where there is none.
    pub multicast_iface: Option<[u8; 4]>,
}

impl DiscoveryConfig {
    /// With a device address made from a seed, on the system's choice of an interface.
    pub fn new(xaddr: String, seed: u32) -> (r: DiscoveryConfig)
        ensures
            r.xaddr@ == xaddr@,
            r.device_addr@ == "urn:uuid:"@ + uuid_text(uuid_bytes(random_bytes(seed, 16))),
            r.multicast_iface is None,
    {
        DiscoveryConfig { xaddr, device_addr: random_device_addr(seed), multicast_iface: None }
    }

    /// With a device address made from a seed, on the given interface.
    pub fn with_iface(xaddr: String, iface: [u8; 4], seed: u32) -> (r: DiscoveryConfig)
        ensures
            r.xaddr@ == xaddr@,
            r.device_addr@ == "urn:uuid:"@ + uuid_text(uuid_bytes(random_bytes(seed, 16))),
            r.multicast_iface == Some(iface),
    {
        DiscoveryConfig { xaddr, device_addr: random_device_addr(seed), multicast_iface: Some(iface) }
    }
}

} // verus!
