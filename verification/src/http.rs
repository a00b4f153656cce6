//! The little of HTTP that the proxy reads and writes: header blocks and their fields.

use crate::text::{
    chars_of, eq_ignore_case, find_char, lowered, pieces, position, split, string_of, text_views, trim, trimmed,
    utf8_text,
};
use vstd::prelude::*;
use vstd::slice::slice_subrange;
use vstd::utf8::{decode_utf8, valid_utf8};

verus! {

pub const LINE_END: [char; 2] = ['\r', '\n'];

/// What a header line gives for a field, if it is that field's.
pub open spec fn line_value(line: Seq<char>, name: Seq<char>) -> Option<Seq<char>> {
    match position(line, ':') {
        Some(i) => if lowered(trimmed(line.take(i))) == lowered(name) {
            Some(trimmed(line.skip(i + 1)))
        } else {
            None
        },
        None => None,
    }
}

/// What the first of the lines that is the field's gives.
pub open spec fn first_value(lines: Seq<Seq<char>>, name: Seq<char>) -> Option<Seq<char>>
    decreases lines.len(),
{
    if lines.len() == 0 {
        None
    } else {
        match line_value(lines[0], name) {
            Some(v) => Some(v),
            None => first_value(lines.skip(1), name),
        }
    }
}

/// The value of a header field, its name compared without regard to case.
pub open spec fn header_of(headers: Seq<char>, name: Seq<char>) -> Option<Seq<char>> {
    first_value(pieces(headers, LINE_END@), name)
}

/// The value of the first field called `name`, without the white space around it.
pub fn header_value(headers: &str, name: &str) -> (r: Option<String>)
    ensures
        match header_of(headers@, name@) {
            Some(v) => r matches Some(t) && t@ == v,
            None => r is None,
        },
{
    let chars = chars_of(headers);
    let wanted = chars_of(name);
    let lines = split(chars.as_slice(), LINE_END.as_slice());
    let ghost views = text_views(lines@);
    let mut i: usize = 0;
    assert(views.skip(0) =~= views);
    while i < lines.len()
        invariant
            i <= lines@.len(),
            views == text_views(lines@),
            wanted@ == name@,
            header_of(headers@, name@) == first_value(views.skip(i as int), name@),
        decreases lines@.len() - i,
    {
        let line = lines[i].as_slice();
        assert(views.skip(i as int)[0] == line@);
        assert(views.skip(i as int).skip(1) =~= views.skip(i + 1));
        match find_char(line, ':') {
            Some(k) => {
                let total: usize = line.len();
                let field = slice_subrange(line, 0, k);
                assert(field@ =~= line@.take(k as int));
                if eq_ignore_case(trim(field), wanted.as_slice()) {
                    let value = slice_subrange(line, k + 1, total);
                    assert(value@ =~= line@.skip(k + 1));
                    let value = trim(value);
                    let count: usize = value.len();
                    let text = string_of(value, 0, count);
                    assert(text@ =~= value@);
                    return Some(text);
                }
            },
            None => {},
        }
        i += 1;
    }
    None
}

/// The value of a field in a header block given as bytes; none where they are not UTF-8.
pub open spec fn header_in_bytes(request: Seq<u8>, name: Seq<char>) -> Option<Seq<char>> {
    if valid_utf8(request) {
        header_of(decode_utf8(request), name)
    } else {
        None
    }
}

/// The value of the first field called `name` in a request.
pub fn extract_header_value(request: &[u8], name: &str) -> (r: Option<String>)
    ensures
        match header_in_bytes(request@, name@) {
            Some(v) => r matches Some(t) && t@ == v,
            None => r is None,
        },
{
    match utf8_text(request) {
        Some(text) => header_value(text, name),
        None => None,
    }
}

/// Whether the empty line that ends a header block begins at `i`.
pub open spec fn ends_headers(s: Seq<u8>, i: int) -> bool {
    0 <= i && i + 4 <= s.len() && s[i] == 13 && s[i + 1] == 10 && s[i + 2] == 13 && s[i + 3] == 10
}

/// Where a header block first ends.
pub open spec fn terminator_from(s: Seq<u8>, i: int) -> Option<int>
    decreases s.len() - i,
{
    if i < 0 || i + 4 > s.len() {
        None
    } else if ends_headers(s, i) {
        Some(i)
    } else {
        terminator_from(s, i + 1)
    }
}

/// Finds the end of the header block: the place of the first `\r\n\r\n`.
pub fn find_terminator(buf: &[u8]) -> (r: Option<usize>)
    ensures
        match terminator_from(buf@, 0) {
            Some(k) => r matches Some(i) && i == k && i + 4 <= buf@.len(),
            None => r is None,
        },
{
    let mut i: usize = 0;
    while i < buf.len() && buf.len() - i >= 4
        invariant
            i <= buf@.len(),
            terminator_from(buf@, 0) == terminator_from(buf@, i as int),
        decreases buf@.len() - i,
    {
        if buf[i] == 13 && buf[i + 1] == 10 && buf[i + 2] == 13 && buf[i + 3] == 10 {
            return Some(i);
        }
        i += 1;
    }
    None
}

/// The end of a header block is found as soon as it is there, and it does not move when more comes.
pub proof fn law_terminator_stays(s: Seq<u8>, more: Seq<u8>, i: int)
    requires
        terminator_from(s, i) is Some,
    ensures
        terminator_from(s + more, i) == terminator_from(s, i),
    decreases s.len() - i,
{
    if !ends_headers(s, i) {
        law_terminator_stays(s, more, i + 1);
        assert(!ends_headers(s + more, i));
    } else {
        assert(ends_headers(s + more, i));
    }
}

} // verus!
