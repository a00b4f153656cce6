//! Laws of RTSP requests: what is written in a request is what is read of it.

use crate::http::{ends_headers, header_of, line_value, LINE_END};
use crate::http_laws::{
    field_line, has_no_empty_line, header_block, is_field, is_line_text, law_block_ends_at_the_empty_line,
    law_field_is_read_under_its_name, law_unwritten_field_is_none, lemma_first_line, nearly_ended, same_but_for_case,
    Field,
};
use crate::rtsp_protocol::{id_in, method_named, parsed, request_of, Method, Parsed};
use crate::text::{decimal, pieces, position, trim_start, white_space};
use crate::text_laws::{lacks, lemma_first_piece, lemma_numeral, lemma_one_piece, lemma_trimmed_already};
use vstd::prelude::*;
use vstd::utf8::{
    encode_utf8, encode_utf8_decode_utf8, encode_utf8_valid_utf8, is_ascii_chars,
    is_ascii_chars_encode_utf8,
};

verus! {

/// The value of the first field with a name.
pub open spec fn told(fields: Seq<Field>, name: Seq<char>) -> Option<Seq<char>>
    decreases fields.len(),
{
    if fields.len() == 0 {
        None
    } else if same_but_for_case(fields[0].name, name) {
        Some(fields[0].value)
    } else {
        told(fields.skip(1), name)
    }
}

proof fn lemma_told(fields: Seq<Field>, name: Seq<char>)
    ensures
        match told(fields, name) {
            Some(v) => exists|i: int|
                0 <= i < fields.len() && (#[trigger] fields[i]).value == v && same_but_for_case(fields[i].name, name)
                    && forall|j: int| 0 <= j < i ==> !same_but_for_case((#[trigger] fields[j]).name, name),
            None => forall|j: int| 0 <= j < fields.len() ==> !same_but_for_case((#[trigger] fields[j]).name, name),
        },
    decreases fields.len(),
{
    if fields.len() > 0 && !same_but_for_case(fields[0].name, name) {
        let tail = fields.skip(1);
        lemma_told(tail, name);
        match told(tail, name) {
            Some(v) => {
                let i = choose|i: int|
                    0 <= i < tail.len() && (#[trigger] tail[i]).value == v && same_but_for_case(tail[i].name, name)
                        && forall|j: int| 0 <= j < i ==> !same_but_for_case((#[trigger] tail[j]).name, name);
                assert(fields[i + 1] == tail[i]);
                assert forall|j: int| 0 <= j < i + 1 implies !same_but_for_case((#[trigger] fields[j]).name, name) by {
                    if j > 0 {
                        assert(tail[j - 1] == fields[j]);
                    }
                }
            },
            None => {
                assert forall|j: int| 0 <= j < fields.len() implies !same_but_for_case(
                    (#[trigger] fields[j]).name,
                    name,
                ) by {
                    if j > 0 {
                        assert(tail[j - 1] == fields[j]);
                    }
                }
            },
        }
    }
}

/// A field is found in a block iff it was written.
pub(crate) proof fn lemma_found(first: Seq<char>, fields: Seq<Field>, name: Seq<char>)
    requires
        lacks(first, '\r'),
        forall|j: int| 0 <= j < fields.len() ==> is_field(#[trigger] fields[j]),
        line_value(first, name) is None,
    ensures
        header_of(header_block(first, fields), name) == told(fields, name),
{
    lemma_told(fields, name);
    match told(fields, name) {
        Some(v) => {
            let i = choose|i: int|
                0 <= i < fields.len() && (#[trigger] fields[i]).value == v && same_but_for_case(fields[i].name, name)
                    && forall|j: int| 0 <= j < i ==> !same_but_for_case((#[trigger] fields[j]).name, name);
            law_field_is_read_under_its_name(first, fields, name, i);
        },
        None => {
            law_unwritten_field_is_none(first, fields, name);
        },
    }
}

/// Whether each carriage return stands at the end of a line that another, not empty, follows.
pub(crate) open spec fn has_lines(t: Seq<char>) -> bool {
    forall|i: int|
        0 <= i < t.len() && (#[trigger] t[i]) == '\r' ==> i + 2 < t.len() && t[i + 2] != '\r'
}

pub(crate) proof fn lemma_block_has_lines(first: Seq<char>, fields: Seq<Field>)
    requires
        is_line_text(first),
        forall|j: int| 0 <= j < fields.len() ==> is_field(#[trigger] fields[j]),
    ensures
        has_lines(header_block(first, fields)),
    decreases fields.len(),
{
    if fields.len() > 0 {
        let head = fields.drop_last();
        let f = fields.last();
        assert(is_field(fields[fields.len() - 1]));
        assert forall|j: int| 0 <= j < head.len() implies is_field(#[trigger] head[j]) by {
            assert(head[j] == fields[j]);
        }
        lemma_block_has_lines(first, head);
        let before = header_block(first, head);
        let line = field_line(f);
        let t = before + seq!['\r', '\n'] + line;
        let n = before.len() as int;
        assert forall|i: int| 0 <= i < t.len() && (#[trigger] t[i]) == '\r' implies i + 2 < t.len() && t[i + 2] != '\r' by {
            if i < n {
                assert(before[i] == '\r');
                assert(t[i + 2] == before[i + 2]);
            } else if i == n {
                assert(t[i + 2] == line[0]);
                assert(line[0] == f.name[0]);
            } else if i > n + 1 {
                let k = i - n - 2;
                assert(t[i] == line[k]);
                let m = f.name.len() as int;
                if k < m {
                    assert(line[k] == f.name[k]);
                } else if k >= m + 2 {
                    assert(line[k] == f.value[k - m - 2]);
                }
            }
        }
    }
}

pub(crate) proof fn lemma_no_empty_line(t: Seq<char>)
    requires
        is_ascii_chars(t),
        has_lines(t),
    ensures
        has_no_empty_line(encode_utf8(t)),
{
    let b = encode_utf8(t);
    is_ascii_chars_encode_utf8(t);
    let s = nearly_ended(b);
    assert forall|i: int| !#[trigger] ends_headers(s, i) by {
        if ends_headers(s, i) && i < b.len() {
            assert(s[i] == b[i]);
            assert(t[i] as u8 == b[i]);
            assert(t[i] == '\r');
            assert(s[i + 2] == b[i + 2]);
            assert(t[i + 2] as u8 == b[i + 2]);
        }
    }
}

/// The words of a first line.
proof fn lemma_words(a: Seq<char>, b: Seq<char>, c: Seq<char>)
    requires
        lacks(a, ' '),
        lacks(b, ' '),
        lacks(c, ' '),
    ensures
        pieces(a + seq![' '] + b + seq![' '] + c, seq![' ']) == seq![a, b, c],
{
    let rest = b + seq![' '] + c;
    assert(a + seq![' '] + b + seq![' '] + c =~= a + seq![' '] + rest);
    lemma_first_piece(a, ' ', rest);
    lemma_first_piece(b, ' ', c);
    lemma_one_piece(c, ' ');
    assert(seq![a] + (seq![b] + seq![c]) =~= seq![a, b, c]);
}

/// The first line of a request.
pub open spec fn request_line(method: Seq<char>, uri: Seq<char>, version: Seq<char>) -> Seq<char> {
    method + seq![' '] + uri + seq![' '] + version
}

/// A request is read as it was written: the method by its name, the address, and the number, session
/// and transport under their names, whatever the case of those; what is not written is none. It ends
/// behind the empty line and as many bytes as `Content-Length` announces.
pub proof fn law_request_is_read(
    method: Seq<char>,
    uri: Seq<char>,
    version: Seq<char>,
    fields: Seq<Field>,
    body: nat,
    rest: Seq<u8>,
)
    requires
        is_ascii_chars(header_block(request_line(method, uri, version), fields)),
        is_line_text(request_line(method, uri, version)),
        lacks(method, ' ') && lacks(uri, ' ') && lacks(version, ' '),
        version.len() >= 5 && version.take(5) == "RTSP/"@,
        forall|j: int| 0 <= j < fields.len() ==> is_field(#[trigger] fields[j]),
        line_value(request_line(method, uri, version), "cseq"@) is None,
        line_value(request_line(method, uri, version), "session"@) is None,
        line_value(request_line(method, uri, version), "transport"@) is None,
        line_value(request_line(method, uri, version), "content-length"@) is None,
        told(fields, "content-length"@) == (if body == 0 { None } else { Some(decimal(body)) }),
        body <= rest.len() <= usize::MAX,
    ensures
        ({
            let head = encode_utf8(header_block(request_line(method, uri, version), fields));
            &&& parsed(head + seq![13u8, 10, 13, 10] + rest) matches Parsed::Request(req, len)
            &&& len == head.len() + 4 + body
            &&& req.uri == uri
            &&& req.method == method_named(method)
            &&& req.transport == told(fields, "transport"@)
            &&& told(fields, "session"@) is None ==> req.session is None
            &&& told(fields, "session"@) matches Some(v) ==> req.session == Some(id_in(v))
            &&& told(fields, "cseq"@) is None ==> req.cseq is None
            &&& forall|n: u32| #[trigger]
                decimal(n as nat) == told(fields, "cseq"@)->0 && told(fields, "cseq"@) is Some ==> req.cseq == Some(n)
        }),
{
    let first = request_line(method, uri, version);
    let text = header_block(first, fields);
    let head = encode_utf8(text);
    let buf = head + seq![13u8, 10, 13, 10] + rest;
    lemma_block_has_lines(first, fields);
    lemma_no_empty_line(text);
    law_block_ends_at_the_empty_line(head, rest);
    assert(buf.take(head.len() as int) =~= head);
    encode_utf8_valid_utf8(text);
    encode_utf8_decode_utf8(text);
    assert(seq!['\r', '\n'] =~= LINE_END@);
    lemma_first_line(first, fields);
    lemma_words(method, uri, version);
    assert(version.take(5) == "RTSP/"@);
    reveal_strlit("RTSP/");
    lemma_found(first, fields, "cseq"@);
    lemma_found(first, fields, "session"@);
    lemma_found(first, fields, "transport"@);
    lemma_found(first, fields, "content-length"@);
    if body > 0 {
        lemma_numeral(body, usize::MAX as nat, ' ');
    }
    assert forall|n: u32| #[trigger]
        decimal(n as nat) == told(fields, "cseq"@)->0 && told(fields, "cseq"@) is Some implies request_of(text).cseq
        == Some(n) by {
        lemma_numeral(n as nat, u32::MAX as nat, ' ');
    }
}

/// Each method goes by its own name, and every other name is that of none.
pub proof fn law_methods_go_by_their_names(name: Seq<char>)
    ensures
        method_named(name) == Method::Options <==> name == "OPTIONS"@,
        method_named(name) == Method::Describe <==> name == "DESCRIBE"@,
        method_named(name) == Method::Setup <==> name == "SETUP"@,
        method_named(name) == Method::Play <==> name == "PLAY"@,
        method_named(name) == Method::Teardown <==> name == "TEARDOWN"@,
        method_named(name) == Method::GetParameter <==> name == "GET_PARAMETER"@,
{
    reveal_strlit("OPTIONS");
    reveal_strlit("DESCRIBE");
    reveal_strlit("SETUP");
    reveal_strlit("PLAY");
    reveal_strlit("TEARDOWN");
    reveal_strlit("GET_PARAMETER");
    assert("OPTIONS"@.len() == 7 && "DESCRIBE"@.len() == 8 && "SETUP"@.len() == 5 && "PLAY"@.len() == 4);
    assert("TEARDOWN"@.len() == 8 && "GET_PARAMETER"@.len() == 13);
    assert("TEARDOWN"@[0] == 'T' && "DESCRIBE"@[0] == 'D');
}

/// A session's id is what stands before the first semicolon, without white space around it.
pub proof fn law_session_id_ends_at_the_semicolon(id: Seq<char>, parameters: Seq<char>)
    requires
        lacks(id, ';'),
        id.len() > 0,
        !white_space(id[0]),
        !white_space(id.last()),
    ensures
        id_in(id) == id,
        id_in(id + seq![';'] + parameters) == id,
        id_in(seq![' '] + id + seq![';'] + parameters) == id,
{
    lemma_trimmed_already(id);
    lemma_no_semicolon(id);
    lemma_semicolon(id, parameters);
    assert((id + seq![';'] + parameters).take(id.len() as int) =~= id);
    let spaced = seq![' '] + id;
    assert forall|i: int| 0 <= i < spaced.len() implies #[trigger] spaced[i] != ';' by {
        if i > 0 {
            assert(spaced[i] == id[i - 1]);
        }
    }
    lemma_semicolon(spaced, parameters);
    assert((spaced + seq![';'] + parameters).take(spaced.len() as int) =~= spaced);
    assert(spaced.skip(1) =~= id);
    assert(trim_start(spaced) == trim_start(spaced.skip(1)));
}

proof fn lemma_no_semicolon(id: Seq<char>)
    requires
        lacks(id, ';'),
    ensures
        position(id, ';') is None,
    decreases id.len(),
{
    if id.len() > 0 {
        assert(id[0] != ';');
        lemma_no_semicolon(id.skip(1));
    }
}

proof fn lemma_semicolon(id: Seq<char>, rest: Seq<char>)
    requires
        lacks(id, ';'),
    ensures
        position(id + seq![';'] + rest, ';') == Some(id.len() as int),
    decreases id.len(),
{
    let s = id + seq![';'] + rest;
    if id.len() == 0 {
        assert(s[0] == ';');
    } else {
        assert(s[0] == id[0]);
        assert(s.skip(1) =~= id.skip(1) + seq![';'] + rest);
        lemma_semicolon(id.skip(1), rest);
    }
}

} // verus!
