//! What holds of discovery as a whole.

use crate::onvif_discovery::{
    device_lines, envelope, header_lines, hex_text, notice, probe_mark, probe_match, relation, seed_from, sum32,
    uuid_bytes, uuid_text, ACTION_BYE, ACTION_HELLO, ACTION_PROBE, ACTION_PROBE_MATCH, DEVICE_TYPE,
    DEVICE_TYPE_DEVICE, GOLDEN_RATIO_32, NS_DISCOVERY, SCOPE_HARDWARE, SCOPE_NAME, SCOPE_STREAMING,
};
use crate::text::{contains_text, find_from, hex2_lower, hex_lower, law_find_from_is_first, occurs_at};
use crate::xml::{
    block_text, element_line, element_text, element_with, escaped, is_markup, law_escaped_text_holds_no_markup,
    law_reading_undoes_escaping, namespace_text, NS_ADDRESSING, NS_ENVELOPE,
};
use vstd::prelude::*;

verus! {

/// Processes that start at different moments, and otherwise alike, start from different seeds.
pub proof fn law_seeds_differ(nanos: u32, other_nanos: u32, addr: u32)
    requires
        nanos != other_nanos,
    ensures
        seed_from(nanos, addr) != seed_from(other_nanos, addr),
{
    lemma_golden_cancels(sum32(nanos, addr));
    lemma_golden_cancels(sum32(other_nanos, addr));
}

/// Multiplying by the golden ratio can be undone.
proof fn lemma_golden_cancels(x: u32)
    ensures
        (x as int * GOLDEN_RATIO_32 as int % 0x1_0000_0000) * 0x144C_BC89 % 0x1_0000_0000 == x,
{
    let m: int = 0x1_0000_0000;
    let g: int = 0x9E37_79B9;
    let h: int = 0x144C_BC89;
    let a = x as int;
    let q = a * g / m;
    let p = a * g % m;
    vstd::arithmetic::div_mod::lemma_fundamental_div_mod(a * g, m);
    let t: int = g * h / m;
    assert(g * h == t * m + 1);
    assert(p * h == a + m * (a * t - q * h)) by (nonlinear_arith)
        requires
            a * g == m * q + p,
            g * h == t * m + 1,
    ;
    vstd::arithmetic::div_mod::lemma_mod_multiples_vanish(a * t - q * h, a, m);
    vstd::arithmetic::div_mod::lemma_small_mod(x as nat, m as nat);
    assert(p * h == m * (a * t - q * h) + a);
}

/// Bytes take two digits each.
proof fn lemma_hex_len(b: Seq<u8>)
    ensures
        hex_text(b).len() == 2 * b.len(),
    decreases b.len(),
{
    if b.len() > 0 {
        lemma_hex_len(b.drop_last());
    }
}

/// A device address is a UUID: five groups of 8, 4, 4, 4 and 12 digits, of version 4.
pub proof fn law_device_address_is_a_version_4_uuid(random: Seq<u8>)
    requires
        random.len() == 16,
    ensures
        ({
            let t = uuid_text(uuid_bytes(random));
            &&& t.len() == 36
            &&& t[8] == '-' && t[13] == '-' && t[18] == '-' && t[23] == '-'
            &&& t[14] == '4'
            &&& t[19] == '8' || t[19] == '9' || t[19] == 'a' || t[19] == 'b'
        }),
{
    let b = uuid_bytes(random);
    lemma_hex_len(b.subrange(0, 4));
    lemma_hex_len(b.subrange(4, 6));
    lemma_hex_len(b.subrange(6, 8));
    lemma_hex_len(b.subrange(8, 10));
    lemma_hex_len(b.subrange(10, 16));
    reveal_strlit("-");
    lemma_first_digit(b.subrange(6, 8));
    lemma_first_digit(b.subrange(8, 10));
    let version = b[6];
    let variant = b[8];
    assert(version as int / 16 == 4);
    assert(8 <= variant as int / 16 <= 11);
    assert(hex_lower(4) == '4');
    assert(hex_lower(8) == '8' && hex_lower(9) == '9' && hex_lower(10) == 'a' && hex_lower(11) == 'b');
    let t = uuid_text(b);
    let g1 = hex_text(b.subrange(0, 4));
    let g2 = hex_text(b.subrange(4, 6));
    let g3 = hex_text(b.subrange(6, 8));
    let g4 = hex_text(b.subrange(8, 10));
    let g5 = hex_text(b.subrange(10, 16));
    assert(t == g1 + "-"@ + g2 + "-"@ + g3 + "-"@ + g4 + "-"@ + g5);
    assert(t[14] == g3[0]);
    assert(t[19] == g4[0]);
}

/// The first digit of bytes is that of the first byte.
proof fn lemma_first_digit(b: Seq<u8>)
    requires
        b.len() == 2,
    ensures
        hex_text(b).len() == 4,
        hex_text(b)[0] == hex_lower(b[0] as int / 16),
{
    let one = b.drop_last();
    assert(one.drop_last() =~= Seq::empty());
    assert(hex_text(one.drop_last()) =~= Seq::empty());
    assert(hex_text(one) =~= hex2_lower(b[0]));
}

/// A text without the brackets of elements.
pub open spec fn is_plain(s: Seq<char>) -> bool {
    forall|i: int| 0 <= i < s.len() ==> #[trigger] s[i] != '<' && s[i] != '>'
}

/// A text that holds no mark of a question.
spec fn is_quiet(s: Seq<char>) -> bool {
    forall|i: int| !#[trigger] occurs_at(s, probe_mark(), i)
}

/// A run of whole elements and line ends that holds no mark of a question.
#[verifier::opaque]
spec fn is_run(s: Seq<char>) -> bool {
    &&& is_quiet(s)
    &&& s.len() > 0
    &&& s[0] == '<' || s[0] == '\n'
    &&& s.last() == '>' || s.last() == '\n'
}

/// What the mark of a question is made of.
proof fn lemma_mark()
    ensures
        probe_mark().len() == ACTION_PROBE@.len() + 2,
        ACTION_PROBE@.len() == 53,
        probe_mark()[0] == '>',
        probe_mark().last() == '<',
        forall|i: int| 0 <= i < ACTION_PROBE@.len() ==> probe_mark()[i + 1] == #[trigger] ACTION_PROBE@[i],
        forall|i: int|
            0 < i < probe_mark().len() - 1 ==> #[trigger] probe_mark()[i] != '<' && probe_mark()[i] != '>'
                && probe_mark()[i] != '\n',
        forall|i: int|
            0 <= i < ACTION_PROBE@.len() ==> #[trigger] ACTION_PROBE@[i] != '<' && ACTION_PROBE@[i] != '>'
                && ACTION_PROBE@[i] != '\n',
        ACTION_PROBE@[0] == 'h',
{
    reveal_strlit("http://schemas.xmlsoap.org/ws/2005/04/discovery/Probe");
    reveal_strlit(">");
    reveal_strlit("<");
    let a = ACTION_PROBE@;
    assert(a == "http://schemas.xmlsoap.org/ws/2005/04/discovery/Probe"@);
    assert forall|i: int| 0 <= i < a.len() implies probe_mark()[i + 1] == #[trigger] a[i] by {}
    assert forall|i: int| 0 < i < probe_mark().len() - 1 implies #[trigger] probe_mark()[i] != '<' && probe_mark()[i]
        != '>' && probe_mark()[i] != '\n' by {
        assert(probe_mark()[i] == a[i - 1]);
    }
}

/// What an occurrence of the mark says of the characters there.
proof fn lemma_occurrence(s: Seq<char>, i: int, k: int)
    requires
        occurs_at(s, probe_mark(), i),
        0 <= k < probe_mark().len(),
    ensures
        s[i + k] == probe_mark()[k],
{
    assert(s.subrange(i, i + probe_mark().len())[k] == s[i + k]);
}

/// Runs that follow each other are a run.
proof fn lemma_join(a: Seq<char>, b: Seq<char>)
    requires
        is_run(a),
        is_run(b),
    ensures
        is_run(a + b),
{
    reveal(is_run);
    lemma_mark();
    let s = a + b;
    let n = probe_mark().len() as int;
    assert forall|i: int| !#[trigger] occurs_at(s, probe_mark(), i) by {
        if occurs_at(s, probe_mark(), i) {
            if i + n <= a.len() {
                assert(a.subrange(i, i + n) =~= s.subrange(i, i + n));
                assert(occurs_at(a, probe_mark(), i));
            } else if i >= a.len() {
                assert(b.subrange(i - a.len(), i - a.len() + n) =~= s.subrange(i, i + n));
                assert(occurs_at(b, probe_mark(), i - a.len()));
            } else {
                let last = a.len() - 1 - i;
                lemma_occurrence(s, i, last);
                lemma_occurrence(s, i, last + 1);
                assert(s[i + last] == a.last());
                assert(s[i + last + 1] == b[0]);
                assert(last == 0);
                assert(probe_mark()[1] == ACTION_PROBE@[0]);
            }
        }
    }
    assert(s[0] == a[0]);
    assert(s.last() == b.last());
}

/// A text whose closing brackets all stand too near its end is quiet.
proof fn lemma_quiet(s: Seq<char>)
    requires
        forall|i: int| 0 <= i < s.len() - 2 ==> #[trigger] s[i] != '>',
    ensures
        is_quiet(s),
{
    lemma_mark();
    assert forall|i: int| !#[trigger] occurs_at(s, probe_mark(), i) by {
        if occurs_at(s, probe_mark(), i) {
            lemma_occurrence(s, i, 0);
            assert(s[i] == '>');
        }
    }
}

/// A tag is a run.
proof fn lemma_tag(inner: Seq<char>)
    requires
        is_plain(inner),
    ensures
        is_run("<"@ + inner + ">"@),
{
    reveal(is_run);
    reveal_strlit("<");
    reveal_strlit(">");
    let s = "<"@ + inner + ">"@;
    assert forall|i: int| 0 <= i < s.len() - 2 implies #[trigger] s[i] != '>' by {
        if i > 0 {
            assert(s[i] == inner[i - 1]);
        }
    }
    lemma_quiet(s);
}

/// The end of a line is a run.
proof fn lemma_line_end()
    ensures
        is_run("\n"@),
        "\n"@ == seq!['\n'],
{
    reveal(is_run);
    reveal_strlit("\n");
    assert("\n"@ =~= seq!['\n']);
    lemma_quiet("\n"@);
}

/// A closing tag is a run.
proof fn lemma_closing_tag(name: Seq<char>)
    requires
        is_plain(name),
    ensures
        is_run("</"@ + name + ">"@),
{
    reveal_strlit("<");
    reveal_strlit("</");
    reveal_strlit(">");
    let inner = seq!['/'] + name;
    assert forall|i: int| 0 <= i < inner.len() implies #[trigger] inner[i] != '<' && inner[i] != '>' by {
        if i > 0 {
            assert(inner[i] == name[i - 1]);
        }
    }
    lemma_tag(inner);
    assert("</"@ + name + ">"@ =~= "<"@ + inner + ">"@);
}

/// An element around a run is a run.
proof fn lemma_outer_element(name: Seq<char>, attributes: Seq<char>, content: Seq<char>)
    requires
        is_plain(name),
        is_plain(attributes),
        is_run(content),
    ensures
        is_run(element_with(name, attributes, content)),
{
    lemma_plain_sum(name, attributes);
    lemma_tag(name + attributes);
    lemma_closing_tag(name);
    let open = "<"@ + (name + attributes) + ">"@;
    let close = "</"@ + name + ">"@;
    lemma_join(open, content);
    lemma_join(open + content, close);
    assert(element_with(name, attributes, content) =~= open + content + close);
}

/// An element around a text that is not the action of a question is a run.
proof fn lemma_text_element(name: Seq<char>, content: Seq<char>)
    requires
        is_plain(name),
        is_plain(content),
        content != ACTION_PROBE@,
    ensures
        is_run(element_text(name, content)),
{
    reveal(is_run);
    lemma_mark();
    reveal_strlit("<");
    reveal_strlit("</");
    reveal_strlit(">");
    let s = element_text(name, content);
    let p = 1 + name.len() as int;
    let q = p + 1 + content.len();
    assert(s.len() == q + 2 + name.len() + 1);
    assert forall|i: int| 0 <= i < s.len() && #[trigger] s[i] == '>' implies i == p || i == s.len() - 1 by {
        if 0 < i < p {
            assert(s[i] == name[i - 1]);
        } else if p < i < q {
            assert(s[i] == content[i - p - 1]);
        } else if q + 2 <= i < s.len() - 1 {
            assert(s[i] == name[i - q - 2]);
        }
    }
    assert forall|i: int| !#[trigger] occurs_at(s, probe_mark(), i) by {
        if occurs_at(s, probe_mark(), i) {
            lemma_occurrence(s, i, 0);
            assert(s[i] == '>');
            assert(i == p);
            let n = ACTION_PROBE@.len() as int;
            lemma_occurrence(s, p, n + 1);
            assert(s[q] == '<');
            if content.len() > n {
                assert(s[p + n + 1] == content[n]);
            } else if content.len() < n {
                lemma_occurrence(s, p, content.len() as int + 1);
            } else {
                assert forall|k: int| 0 <= k < n implies content[k] == ACTION_PROBE@[k] by {
                    lemma_occurrence(s, p, k + 1);
                    assert(s[p + k + 1] == content[k]);
                }
                assert(content =~= ACTION_PROBE@);
            }
        }
    }
    assert(s[0] == '<');
    assert(s.last() == '>');
}

/// An element on a line of its own is a run if it is one without the line's end.
proof fn lemma_text_line(name: Seq<char>, content: Seq<char>)
    requires
        is_plain(name),
        is_plain(content),
        content != ACTION_PROBE@,
    ensures
        is_run(element_line(name, content)),
{
    lemma_text_element(name, content);
    lemma_line_end();
    lemma_join(element_text(name, content), "\n"@);
}

/// A block around a run is a run.
proof fn lemma_block(name: Seq<char>, content: Seq<char>)
    requires
        is_plain(name),
        is_run(content),
    ensures
        is_run(block_text(name, content)),
{
    lemma_line_end();
    lemma_join("\n"@, content);
    lemma_outer_element(name, Seq::empty(), "\n"@ + content);
    lemma_join(element_text(name, "\n"@ + content), "\n"@);
}

proof fn lemma_plain_sum(a: Seq<char>, b: Seq<char>)
    requires
        is_plain(a),
        is_plain(b),
    ensures
        is_plain(a + b),
{
    assert forall|i: int| 0 <= i < (a + b).len() implies #[trigger] (a + b)[i] != '<' && (a + b)[i] != '>' by {
        if i < a.len() {
            assert((a + b)[i] == a[i]);
        } else {
            assert((a + b)[i] == b[i - a.len()]);
        }
    }
}

/// The names of elements are plain.
proof fn lemma_names()
    ensures
        is_plain("wsa:Action"@),
        is_plain("wsa:To"@),
        is_plain("wsa:RelatesTo"@),
        is_plain("wsa:EndpointReference"@),
        is_plain("wsa:Address"@),
        is_plain("wsdiscovery:Types"@),
        is_plain("wsdiscovery:Scopes"@),
        is_plain("wsdiscovery:XAddrs"@),
        is_plain("wsdiscovery:MetadataVersion"@),
        is_plain("wsdiscovery:ProbeMatches"@),
        is_plain("wsdiscovery:ProbeMatch"@),
        is_plain("s:Envelope"@),
        is_plain("s:Header"@),
        is_plain("s:Body"@),
{
    reveal_strlit("wsa:Action");
    reveal_strlit("wsa:To");
    reveal_strlit("wsa:RelatesTo");
    reveal_strlit("wsa:EndpointReference");
    reveal_strlit("wsa:Address");
    reveal_strlit("wsdiscovery:Types");
    reveal_strlit("wsdiscovery:Scopes");
    reveal_strlit("wsdiscovery:XAddrs");
    reveal_strlit("wsdiscovery:MetadataVersion");
    reveal_strlit("wsdiscovery:ProbeMatches");
    reveal_strlit("wsdiscovery:ProbeMatch");
    reveal_strlit("s:Envelope");
    reveal_strlit("s:Header");
    reveal_strlit("s:Body");
}

/// The names of announcements are plain.
proof fn lemma_notice_names()
    ensures
        is_plain("wsdiscovery:Hello"@),
        is_plain("wsdiscovery:Bye"@),
        is_plain(ACTION_HELLO@),
        is_plain(ACTION_BYE@),
        is_plain(ACTION_PROBE_MATCH@),
        ACTION_HELLO@ != ACTION_PROBE@,
        ACTION_BYE@ != ACTION_PROBE@,
        ACTION_PROBE_MATCH@ != ACTION_PROBE@,
{
    reveal_strlit("wsdiscovery:Hello");
    reveal_strlit("wsdiscovery:Bye");
    reveal_strlit("http://schemas.xmlsoap.org/ws/2005/04/discovery/Probe");
    reveal_strlit("http://schemas.xmlsoap.org/ws/2005/04/discovery/Hello");
    reveal_strlit("http://schemas.xmlsoap.org/ws/2005/04/discovery/Bye");
    reveal_strlit("http://schemas.xmlsoap.org/ws/2005/04/discovery/ProbeMatches");
    assert(ACTION_HELLO@[48] == 'H');
    assert(ACTION_PROBE@[48] == 'P');
}

/// Escaped text is plain, and is the action of a question only if the text is.
proof fn lemma_escaped(s: Seq<char>)
    requires
        s != ACTION_PROBE@,
    ensures
        is_plain(escaped(s)),
        escaped(s) != ACTION_PROBE@,
{
    law_escaped_text_holds_no_markup(s);
    assert forall|i: int| 0 <= i < escaped(s).len() implies #[trigger] escaped(s)[i] != '<' && escaped(s)[i] != '>' by {
        assert(!is_markup(escaped(s)[i]));
    }
    law_reading_undoes_escaping(s);
    law_reading_undoes_escaping(ACTION_PROBE@);
    lemma_nothing_to_escape(ACTION_PROBE@.len() as int);
    assert(ACTION_PROBE@.take(ACTION_PROBE@.len() as int) =~= ACTION_PROBE@);
}

/// The action of a question holds nothing to escape.
proof fn lemma_nothing_to_escape(n: int)
    requires
        0 <= n <= ACTION_PROBE@.len(),
    ensures
        escaped(ACTION_PROBE@.take(n)) == ACTION_PROBE@.take(n),
    decreases n,
{
    if n > 0 {
        lemma_nothing_to_escape(n - 1);
        let t = ACTION_PROBE@.take(n);
        assert(t.drop_last() =~= ACTION_PROBE@.take(n - 1));
        reveal_strlit("http://schemas.xmlsoap.org/ws/2005/04/discovery/Probe");
        let c = ACTION_PROBE@[n - 1];
        assert(c != '&' && c != '<' && c != '>' && c != '"' && c != '\'');
        assert(t.drop_last() + seq![c] =~= t);
    }
}

/// Five runs in a row are a run.
proof fn lemma_five(a: Seq<char>, b: Seq<char>, c: Seq<char>, d: Seq<char>, e: Seq<char>)
    requires
        is_run(a),
        is_run(b),
        is_run(c),
        is_run(d),
        is_run(e),
    ensures
        is_run(a + b + c + d + e),
{
    lemma_join(a, b);
    lemma_join(a + b, c);
    lemma_join(a + b + c, d);
    lemma_join(a + b + c + d, e);
}

/// The address of the device is a run.
proof fn lemma_address_block(device_addr: Seq<char>)
    requires
        device_addr != ACTION_PROBE@,
    ensures
        is_run(block_text("wsa:EndpointReference"@, element_line("wsa:Address"@, escaped(device_addr)))),
{
    lemma_names();
    lemma_escaped(device_addr);
    lemma_text_line("wsa:Address"@, escaped(device_addr));
    lemma_block("wsa:EndpointReference"@, element_line("wsa:Address"@, escaped(device_addr)));
}

/// The types and the scopes of the device are runs.
proof fn lemma_type_lines()
    ensures
        is_run(element_line("wsdiscovery:Types"@, DEVICE_TYPE@ + " "@ + DEVICE_TYPE_DEVICE@)),
        is_run(
            element_line("wsdiscovery:Scopes"@, SCOPE_STREAMING@ + " "@ + SCOPE_HARDWARE@ + " "@ + SCOPE_NAME@),
        ),
{
    lemma_names();
    lemma_mark();
    lemma_types_and_scopes();
    lemma_text_line("wsdiscovery:Types"@, DEVICE_TYPE@ + " "@ + DEVICE_TYPE_DEVICE@);
    lemma_text_line("wsdiscovery:Scopes"@, SCOPE_STREAMING@ + " "@ + SCOPE_HARDWARE@ + " "@ + SCOPE_NAME@);
}

/// The address of the service is a run.
proof fn lemma_service_line(xaddr: Seq<char>)
    requires
        xaddr != ACTION_PROBE@,
    ensures
        is_run(element_line("wsdiscovery:XAddrs"@, escaped(xaddr))),
{
    lemma_names();
    lemma_escaped(xaddr);
    lemma_text_line("wsdiscovery:XAddrs"@, escaped(xaddr));
}

/// The version of the metadata is a run.
proof fn lemma_version_line()
    ensures
        is_run(element_line("wsdiscovery:MetadataVersion"@, "1"@)),
{
    lemma_names();
    lemma_mark();
    assert(is_plain("1"@) && "1"@.len() == 1) by {
        reveal_strlit("1");
    }
    lemma_text_line("wsdiscovery:MetadataVersion"@, "1"@);
}

/// What the device tells of itself is a run.
proof fn lemma_device_lines(xaddr: Seq<char>, device_addr: Seq<char>)
    requires
        xaddr != ACTION_PROBE@,
        device_addr != ACTION_PROBE@,
    ensures
        is_run(device_lines(xaddr, device_addr)),
{
    lemma_address_block(device_addr);
    lemma_type_lines();
    lemma_service_line(xaddr);
    lemma_version_line();
    lemma_five(
        block_text("wsa:EndpointReference"@, element_line("wsa:Address"@, escaped(device_addr))),
        element_line("wsdiscovery:Types"@, DEVICE_TYPE@ + " "@ + DEVICE_TYPE_DEVICE@),
        element_line("wsdiscovery:Scopes"@, SCOPE_STREAMING@ + " "@ + SCOPE_HARDWARE@ + " "@ + SCOPE_NAME@),
        element_line("wsdiscovery:XAddrs"@, escaped(xaddr)),
        element_line("wsdiscovery:MetadataVersion"@, "1"@),
    );
}

proof fn lemma_types_and_scopes()
    ensures
        is_plain(DEVICE_TYPE@ + " "@ + DEVICE_TYPE_DEVICE@),
        (DEVICE_TYPE@ + " "@ + DEVICE_TYPE_DEVICE@).len() == 38,
        is_plain(SCOPE_STREAMING@ + " "@ + SCOPE_HARDWARE@ + " "@ + SCOPE_NAME@),
        (SCOPE_STREAMING@ + " "@ + SCOPE_HARDWARE@ + " "@ + SCOPE_NAME@).len() > 100,
{
    reveal_strlit("tns:NetworkVideoTransmitter");
    reveal_strlit("tds:Device");
    reveal_strlit("onvif://www.onvif.org/Profile/Streaming");
    reveal_strlit("onvif://www.onvif.org/hardware/UVC-G5-Bullet");
    reveal_strlit("onvif://www.onvif.org/name/flvproxy");
    reveal_strlit(" ");
    assert(is_plain(DEVICE_TYPE@) && is_plain(DEVICE_TYPE_DEVICE@) && is_plain(" "@));
    assert(is_plain(SCOPE_STREAMING@) && is_plain(SCOPE_HARDWARE@) && is_plain(SCOPE_NAME@));
    lemma_plain_sum(DEVICE_TYPE@, " "@);
    lemma_plain_sum(DEVICE_TYPE@ + " "@, DEVICE_TYPE_DEVICE@);
    lemma_plain_sum(SCOPE_STREAMING@, " "@);
    lemma_plain_sum(SCOPE_STREAMING@ + " "@, SCOPE_HARDWARE@);
    lemma_plain_sum(SCOPE_STREAMING@ + " "@ + SCOPE_HARDWARE@, " "@);
    lemma_plain_sum(SCOPE_STREAMING@ + " "@ + SCOPE_HARDWARE@ + " "@, SCOPE_NAME@);
}

/// The number of a message is a run.
proof fn lemma_sequence_line()
    ensures
        is_run("<wsdiscovery:AppSequence InstanceId=\"1\" MessageNumber=\"1\"/>\n"@),
{
    reveal(is_run);
    let s = "<wsdiscovery:AppSequence InstanceId=\"1\" MessageNumber=\"1\"/>\n"@;
    assert(s.len() > 2 && s[0] == '<' && s.last() == '\n' && forall|i: int|
        0 <= i < s.len() - 2 ==> #[trigger] s[i] != '>') by {
        reveal_strlit("<wsdiscovery:AppSequence InstanceId=\"1\" MessageNumber=\"1\"/>\n");
    }
    lemma_quiet(s);
}

/// The first line of a message is a run.
proof fn lemma_first_line()
    ensures
        is_run("<?xml version=\"1.0\" encoding=\"UTF-8\"?>\n"@),
{
    reveal(is_run);
    let s = "<?xml version=\"1.0\" encoding=\"UTF-8\"?>\n"@;
    assert(s.len() > 2 && s[0] == '<' && s.last() == '\n' && forall|i: int|
        0 <= i < s.len() - 2 ==> #[trigger] s[i] != '>') by {
        reveal_strlit("<?xml version=\"1.0\" encoding=\"UTF-8\"?>\n");
    }
    lemma_quiet(s);
}

/// The receiver of a message is a run.
proof fn lemma_receiver_line()
    ensures
        is_run(element_line("wsa:To"@, "urn:docs-oasis-open-org:ws-sx:ws-discovery"@)),
{
    lemma_names();
    lemma_mark();
    assert(is_plain("urn:docs-oasis-open-org:ws-sx:ws-discovery"@)
        && "urn:docs-oasis-open-org:ws-sx:ws-discovery"@.len() == 42) by {
        reveal_strlit("urn:docs-oasis-open-org:ws-sx:ws-discovery");
    }
    lemma_text_line("wsa:To"@, "urn:docs-oasis-open-org:ws-sx:ws-discovery"@);
}

/// The declaration of a namespace is plain.
proof fn lemma_namespace(prefix: Seq<char>, uri: Seq<char>)
    requires
        is_plain(prefix),
        is_plain(uri),
    ensures
        is_plain(namespace_text(prefix, uri)),
{
    assert(is_plain(" xmlns:"@) && is_plain("=\""@) && is_plain("\""@)) by {
        reveal_strlit(" xmlns:");
        reveal_strlit("=\"");
        reveal_strlit("\"");
    }
    lemma_plain_sum(" xmlns:"@, prefix);
    lemma_plain_sum(" xmlns:"@ + prefix, "=\""@);
    lemma_plain_sum(" xmlns:"@ + prefix + "=\""@, uri);
    lemma_plain_sum(" xmlns:"@ + prefix + "=\""@ + uri, "\""@);
}

proof fn lemma_namespaces()
    ensures
        is_plain(
            namespace_text("s"@, NS_ENVELOPE@) + namespace_text("wsa"@, NS_ADDRESSING@) + namespace_text(
                "wsdiscovery"@,
                NS_DISCOVERY@,
            ),
        ),
{
    reveal_strlit("s");
    reveal_strlit("wsa");
    reveal_strlit("wsdiscovery");
    reveal_strlit("http://www.w3.org/2003/05/soap-envelope");
    reveal_strlit("http://schemas.xmlsoap.org/ws/2004/08/addressing");
    reveal_strlit("http://schemas.xmlsoap.org/ws/2005/04/discovery");
    let a = namespace_text("s"@, NS_ENVELOPE@);
    let b = namespace_text("wsa"@, NS_ADDRESSING@);
    let c = namespace_text("wsdiscovery"@, NS_DISCOVERY@);
    lemma_namespace("s"@, NS_ENVELOPE@);
    lemma_namespace("wsa"@, NS_ADDRESSING@);
    lemma_namespace("wsdiscovery"@, NS_DISCOVERY@);
    lemma_plain_sum(a, b);
    lemma_plain_sum(a + b, c);
}

/// A message whose parts are runs is a run.
proof fn lemma_envelope(action: Seq<char>, relates: Seq<char>, body: Seq<char>)
    requires
        is_plain(action),
        action != ACTION_PROBE@,
        relates.len() == 0 || is_run(relates),
        is_run(body),
    ensures
        is_run(envelope(action, relates, body)),
{
    lemma_names();
    lemma_line_end();
    lemma_first_line();
    lemma_receiver_line();
    lemma_sequence_line();
    lemma_namespaces();
    lemma_text_line("wsa:Action"@, action);
    let a = element_line("wsa:Action"@, action);
    let to = element_line("wsa:To"@, "urn:docs-oasis-open-org:ws-sx:ws-discovery"@);
    let sequence = "<wsdiscovery:AppSequence InstanceId=\"1\" MessageNumber=\"1\"/>\n"@;
    if relates.len() == 0 {
        assert(a + relates =~= a);
    } else {
        lemma_join(a, relates);
    }
    lemma_join(a + relates, "\n"@);
    lemma_join(a + relates + "\n"@, to);
    lemma_join(a + relates + "\n"@ + to, sequence);
    let head = block_text("s:Header"@, header_lines(action, relates));
    let tail = block_text("s:Body"@, body);
    lemma_block("s:Header"@, header_lines(action, relates));
    lemma_block("s:Body"@, body);
    lemma_join("\n"@, head);
    lemma_join("\n"@ + head, tail);
    let namespaces = namespace_text("s"@, NS_ENVELOPE@) + namespace_text("wsa"@, NS_ADDRESSING@) + namespace_text(
        "wsdiscovery"@,
        NS_DISCOVERY@,
    );
    lemma_outer_element("s:Envelope"@, namespaces, "\n"@ + head + tail);
    lemma_join(
        "<?xml version=\"1.0\" encoding=\"UTF-8\"?>\n"@,
        element_with("s:Envelope"@, namespaces, "\n"@ + head + tail),
    );
}

/// A run does not contain the mark.
proof fn lemma_quiet_text(s: Seq<char>)
    requires
        is_run(s),
    ensures
        !contains_text(s, probe_mark()),
{
    reveal(is_run);
    law_find_from_is_first(s, probe_mark(), 0);
    assert(find_from(s, probe_mark(), 0) matches Some(k) ==> occurs_at(s, probe_mark(), k));
}

/// An answer is never taken for a question, so two proxies do not answer each other; but for a
/// device whose address, or a question whose id, is the action of a question itself.
pub proof fn law_answers_are_not_questions(
    xaddr: Seq<char>,
    device_addr: Seq<char>,
    relates_to: Option<Seq<char>>,
)
    requires
        xaddr != ACTION_PROBE@,
        device_addr != ACTION_PROBE@,
        relates_to != Some(ACTION_PROBE@),
    ensures
        !contains_text(probe_match(xaddr, device_addr, relates_to), probe_mark()),
{
    lemma_names();
    lemma_notice_names();
    lemma_device_lines(xaddr, device_addr);
    if let Some(id) = relates_to {
        lemma_escaped(id);
        lemma_text_element("wsa:RelatesTo"@, escaped(id));
    }
    let lines = device_lines(xaddr, device_addr);
    lemma_block("wsdiscovery:ProbeMatch"@, lines);
    lemma_block("wsdiscovery:ProbeMatches"@, block_text("wsdiscovery:ProbeMatch"@, lines));
    lemma_envelope(
        ACTION_PROBE_MATCH@,
        relation(relates_to),
        block_text("wsdiscovery:ProbeMatches"@, block_text("wsdiscovery:ProbeMatch"@, lines)),
    );
    lemma_quiet_text(probe_match(xaddr, device_addr, relates_to));
}

/// Announcements and leave-takings are never taken for questions.
pub proof fn law_notices_are_not_questions(xaddr: Seq<char>, device_addr: Seq<char>)
    requires
        xaddr != ACTION_PROBE@,
        device_addr != ACTION_PROBE@,
    ensures
        !contains_text(notice(ACTION_HELLO@, "wsdiscovery:Hello"@, xaddr, device_addr), probe_mark()),
        !contains_text(notice(ACTION_BYE@, "wsdiscovery:Bye"@, xaddr, device_addr), probe_mark()),
{
    lemma_notice_names();
    lemma_line_end();
    lemma_device_lines(xaddr, device_addr);
    let lines = device_lines(xaddr, device_addr);
    lemma_join("\n"@, lines);
    lemma_join("\n"@ + lines, "\n"@);
    let content = "\n"@ + lines + "\n"@;
    lemma_block("wsdiscovery:Hello"@, content);
    lemma_block("wsdiscovery:Bye"@, content);
    lemma_envelope(ACTION_HELLO@, Seq::empty(), block_text("wsdiscovery:Hello"@, content));
    lemma_envelope(ACTION_BYE@, Seq::empty(), block_text("wsdiscovery:Bye"@, content));
    lemma_quiet_text(notice(ACTION_HELLO@, "wsdiscovery:Hello"@, xaddr, device_addr));
    lemma_quiet_text(notice(ACTION_BYE@, "wsdiscovery:Bye"@, xaddr, device_addr));
}

} // verus!
