//! Laws of header blocks: what is written under a name is read under that name.

use crate::http::{ends_headers, first_value, header_of, line_value, terminator_from, LINE_END};
use crate::text::{find_from, law_find_from_is_first, lower, lowered, occurs_at, pieces, position, trim_start, trimmed, white_space};
use crate::text_laws::{lacks, lemma_trimmed_already};
use vstd::prelude::*;

verus! {

/// Whether two names differ in nothing but the case of their letters.
pub open spec fn same_but_for_case(a: Seq<char>, b: Seq<char>) -> bool {
    a.len() == b.len() && forall|i: int|
        0 <= i < a.len() ==> (#[trigger] a[i]) == b[i] || ('A' <= a[i] <= 'Z' && b[i] as int == a[i] as int + 32) || (
        'A' <= b[i] <= 'Z' && a[i] as int == b[i] as int + 32)
}

pub(crate) proof fn lemma_case(a: Seq<char>, b: Seq<char>)
    ensures
        lowered(a) == lowered(b) <==> same_but_for_case(a, b),
{
    if lowered(a) == lowered(b) {
        assert(lowered(a).len() == a.len() && lowered(b).len() == b.len());
        assert forall|i: int| 0 <= i < a.len() implies (#[trigger] a[i]) == b[i] || ('A' <= a[i] <= 'Z' && b[i] as int
            == a[i] as int + 32) || ('A' <= b[i] <= 'Z' && a[i] as int == b[i] as int + 32) by {
            assert(lowered(a)[i] == lower(a[i]));
            assert(lowered(b)[i] == lower(b[i]));
            if a[i] != b[i] {
                if 'A' <= a[i] <= 'Z' {
                    assert(lower(a[i]) as int == a[i] as int + 32);
                }
                if 'A' <= b[i] <= 'Z' {
                    assert(lower(b[i]) as int == b[i] as int + 32);
                }
            }
        }
    }
    if same_but_for_case(a, b) {
        assert forall|i: int| 0 <= i < a.len() implies lowered(a)[i] == lowered(b)[i] by {
            assert(a[i] == b[i] || ('A' <= a[i] <= 'Z' && b[i] as int == a[i] as int + 32) || ('A' <= b[i] <= 'Z'
                && a[i] as int == b[i] as int + 32));
        }
        assert(lowered(a) =~= lowered(b));
    }
}

/// A text that lacks the first character of a separator is one piece.
proof fn lemma_whole_piece(a: Seq<char>, sep: Seq<char>)
    requires
        sep.len() > 0,
        lacks(a, sep[0]),
    ensures
        pieces(a, sep) == seq![a],
{
    law_find_from_is_first(a, sep, 0);
    if let Some(k) = find_from(a, sep, 0) {
        assert(a.subrange(k, k + sep.len())[0] == sep[0]);
        assert(a[k] == sep[0]);
    }
}

/// The first piece ends where the separator first stands.
proof fn lemma_piece_before(a: Seq<char>, sep: Seq<char>, b: Seq<char>)
    requires
        sep.len() > 0,
        lacks(a, sep[0]),
    ensures
        pieces(a + sep + b, sep) == seq![a] + pieces(b, sep),
{
    let s = a + sep + b;
    law_find_from_is_first(s, sep, 0);
    assert(s.subrange(a.len() as int, 0int + a.len() + sep.len()) =~= sep);
    assert(occurs_at(s, sep, a.len() as int));
    let k = find_from(s, sep, 0)->0;
    if k < a.len() {
        assert(s.subrange(k, k + sep.len())[0] == sep[0]);
        assert(s[k] == a[k]);
    }
    assert(s.take(k) =~= a);
    assert(s.skip(k + sep.len()) =~= b);
}

/// A field of a header block.
pub struct Field {
    pub name: Seq<char>,
    pub value: Seq<char>,
}

/// Whether a text stands on one line, without white space around it.
pub open spec fn is_line_text(t: Seq<char>) -> bool {
    lacks(t, '\r') && lacks(t, '\n') && (t.len() > 0 ==> !white_space(t[0]) && !white_space(t.last()))
}

/// Whether a field can be written: its name has no colon, and both stand on one line.
pub open spec fn is_field(f: Field) -> bool {
    is_line_text(f.name) && lacks(f.name, ':') && f.name.len() > 0 && is_line_text(f.value)
}

/// The line of a field.
pub open spec fn field_line(f: Field) -> Seq<char> {
    f.name + seq![':', ' '] + f.value
}

/// A first line and the fields behind it, each on a line of its own.
pub open spec fn header_block(first: Seq<char>, fields: Seq<Field>) -> Seq<char>
    decreases fields.len(),
{
    if fields.len() == 0 {
        first
    } else {
        header_block(first, fields.drop_last()) + seq!['\r', '\n'] + field_line(fields.last())
    }
}

/// A first line and the fields behind it, taken from the front.
spec fn lines_from(first: Seq<char>, fields: Seq<Field>) -> Seq<char>
    decreases fields.len(),
{
    if fields.len() == 0 {
        first
    } else {
        first + seq!['\r', '\n'] + lines_from(field_line(fields[0]), fields.skip(1))
    }
}

proof fn lemma_block_from_front(first: Seq<char>, fields: Seq<Field>)
    ensures
        header_block(first, fields) == lines_from(first, fields),
    decreases fields.len(),
{
    reveal_with_fuel(header_block, 2);
    reveal_with_fuel(lines_from, 2);
    if fields.len() == 1 {
        assert(fields.drop_last() =~= Seq::empty());
        assert(fields.skip(1) =~= Seq::empty());
    } else if fields.len() > 1 {
        let head = fields.drop_last();
        lemma_block_from_front(first, head);
        lemma_block_from_front(field_line(fields[0]), fields.skip(1));
        lemma_block_from_front(field_line(fields[0]), head.skip(1));
        assert(head.skip(1) =~= fields.skip(1).drop_last());
        assert(fields.skip(1).last() == fields.last());
        let nl = seq!['\r', '\n'];
        let l = field_line(fields.last());
        let m = lines_from(field_line(fields[0]), head.skip(1));
        assert((first + nl + m) + nl + l =~= first + nl + (m + nl + l));
    }
}

proof fn lemma_field_line(f: Field)
    requires
        is_field(f),
    ensures
        lacks(field_line(f), '\r'),
        lacks(field_line(f), '\n'),
        field_line(f).len() > 0,
        position(field_line(f), ':') == Some(f.name.len() as int),
        field_line(f).take(f.name.len() as int) == f.name,
        trimmed(f.name) == f.name,
        trimmed(field_line(f).skip(0int + f.name.len() + 1)) == f.value,
{
    let line = field_line(f);
    let n = f.name.len() as int;
    assert forall|i: int| 0 <= i < line.len() implies #[trigger] line[i] != '\r' && line[i] != '\n' by {
        if i < n {
            assert(line[i] == f.name[i]);
        } else if i >= n + 2 {
            assert(line[i] == f.value[i - n - 2]);
        }
    }
    lemma_position(f.name, seq![' '] + f.value);
    assert(line =~= f.name + seq![':'] + (seq![' '] + f.value));
    assert(line.take(n) =~= f.name);
    lemma_trimmed_already(f.name);
    let v = line.skip(n + 1);
    assert(v =~= seq![' '] + f.value);
    assert(v.skip(1) =~= f.value);
    lemma_trimmed_already(f.value);
    assert(white_space(v[0]));
    assert(trim_start(v) == trim_start(v.skip(1)));
}

proof fn lemma_position(a: Seq<char>, b: Seq<char>)
    requires
        lacks(a, ':'),
    ensures
        position(a + seq![':'] + b, ':') == Some(a.len() as int),
    decreases a.len(),
{
    let s = a + seq![':'] + b;
    if a.len() == 0 {
        assert(s[0] == ':');
    } else {
        assert(s[0] == a[0]);
        assert(s.skip(1) =~= a.skip(1) + seq![':'] + b);
        lemma_position(a.skip(1), b);
    }
}

proof fn lemma_lines(first: Seq<char>, fields: Seq<Field>, name: Seq<char>, i: int)
    requires
        lacks(first, '\r'),
        forall|j: int| 0 <= j < fields.len() ==> is_field(#[trigger] fields[j]),
        line_value(first, name) is None,
        0 <= i < fields.len(),
        same_but_for_case(fields[i].name, name),
        forall|j: int| 0 <= j < i ==> !same_but_for_case((#[trigger] fields[j]).name, name),
    ensures
        header_of(lines_from(first, fields), name) == Some(fields[i].value),
    decreases fields.len(),
{
    let tail = fields.skip(1);
    let line = field_line(fields[0]);
    let rest = lines_from(line, tail);
    assert(seq!['\r', '\n'] =~= LINE_END@);
    lemma_piece_before(first, LINE_END@, rest);
    let all = pieces(lines_from(first, fields), LINE_END@);
    assert(all =~= seq![first] + pieces(rest, LINE_END@));
    assert(all.skip(1) =~= pieces(rest, LINE_END@));
    assert(is_field(fields[0]));
    lemma_field_line(fields[0]);
    lemma_case(fields[0].name, name);
    if i == 0 {
        assert(line_value(line, name) == Some(fields[0].value));
        lemma_first_piece_is(line, tail);
    } else {
        assert(!same_but_for_case(fields[0].name, name));
        assert forall|j: int| 0 <= j < tail.len() implies is_field(#[trigger] tail[j]) by {
            assert(tail[j] == fields[j + 1]);
        }
        assert forall|j: int| 0 <= j < i - 1 implies !same_but_for_case((#[trigger] tail[j]).name, name) by {
            assert(tail[j] == fields[j + 1]);
        }
        lemma_lines(line, tail, name, i - 1);
    }
}

proof fn lemma_first_piece_is(first: Seq<char>, fields: Seq<Field>)
    requires
        lacks(first, '\r'),
    ensures
        pieces(lines_from(first, fields), LINE_END@).len() > 0,
        pieces(lines_from(first, fields), LINE_END@)[0] == first,
{
    assert(seq!['\r', '\n'] =~= LINE_END@);
    if fields.len() == 0 {
        lemma_whole_piece(first, LINE_END@);
    } else {
        lemma_piece_before(first, LINE_END@, lines_from(field_line(fields[0]), fields.skip(1)));
    }
}

/// The first line of a header block is the first of its lines.
pub proof fn lemma_first_line(first: Seq<char>, fields: Seq<Field>)
    requires
        lacks(first, '\r'),
    ensures
        pieces(header_block(first, fields), LINE_END@).len() > 0,
        pieces(header_block(first, fields), LINE_END@)[0] == first,
{
    lemma_block_from_front(first, fields);
    lemma_first_piece_is(first, fields);
}

/// A field is read under its name, whatever the case of the letters; of several under one name the
/// first counts.
pub proof fn law_field_is_read_under_its_name(first: Seq<char>, fields: Seq<Field>, name: Seq<char>, i: int)
    requires
        lacks(first, '\r'),
        forall|j: int| 0 <= j < fields.len() ==> is_field(#[trigger] fields[j]),
        line_value(first, name) is None,
        0 <= i < fields.len(),
        same_but_for_case(fields[i].name, name),
        forall|j: int| 0 <= j < i ==> !same_but_for_case((#[trigger] fields[j]).name, name),
    ensures
        header_of(header_block(first, fields), name) == Some(fields[i].value),
{
    lemma_block_from_front(first, fields);
    lemma_lines(first, fields, name, i);
}

/// A name under which nothing is written reads as nothing.
pub proof fn law_unwritten_field_is_none(first: Seq<char>, fields: Seq<Field>, name: Seq<char>)
    requires
        lacks(first, '\r'),
        forall|j: int| 0 <= j < fields.len() ==> is_field(#[trigger] fields[j]),
        line_value(first, name) is None,
        forall|j: int| 0 <= j < fields.len() ==> !same_but_for_case((#[trigger] fields[j]).name, name),
    ensures
        header_of(header_block(first, fields), name) is None,
    decreases fields.len(),
{
    lemma_block_from_front(first, fields);
    lemma_no_lines(first, fields, name);
}

proof fn lemma_no_lines(first: Seq<char>, fields: Seq<Field>, name: Seq<char>)
    requires
        lacks(first, '\r'),
        forall|j: int| 0 <= j < fields.len() ==> is_field(#[trigger] fields[j]),
        line_value(first, name) is None,
        forall|j: int| 0 <= j < fields.len() ==> !same_but_for_case((#[trigger] fields[j]).name, name),
    ensures
        header_of(lines_from(first, fields), name) is None,
    decreases fields.len(),
{
    assert(seq!['\r', '\n'] =~= LINE_END@);
    if fields.len() == 0 {
        lemma_whole_piece(first, LINE_END@);
        reveal_with_fuel(first_value, 2);
        assert(seq![first].skip(1) =~= Seq::<Seq<char>>::empty());
    } else {
        let tail = fields.skip(1);
        let line = field_line(fields[0]);
        let rest = lines_from(line, tail);
        lemma_piece_before(first, LINE_END@, rest);
        let all = pieces(lines_from(first, fields), LINE_END@);
        assert(all =~= seq![first] + pieces(rest, LINE_END@));
        assert(all.skip(1) =~= pieces(rest, LINE_END@));
        assert(is_field(fields[0]));
        assert(!same_but_for_case(fields[0].name, name));
        lemma_field_line(fields[0]);
        lemma_case(fields[0].name, name);
        assert forall|j: int| 0 <= j < tail.len() implies is_field(#[trigger] tail[j]) && !same_but_for_case(
            tail[j].name,
            name,
        ) by {
            assert(tail[j] == fields[j + 1]);
        }
        lemma_no_lines(line, tail, name);
    }
}

/// The empty line behind a block changes nothing of what is read.
pub proof fn law_empty_line_holds_no_field(first: Seq<char>, fields: Seq<Field>, name: Seq<char>)
    requires
        lacks(first, '\r'),
        forall|j: int| 0 <= j < fields.len() ==> is_field(#[trigger] fields[j]),
    ensures
        header_of(header_block(first, fields) + seq!['\r', '\n', '\r', '\n'], name) == header_of(
            header_block(first, fields),
            name,
        ),
{
    lemma_block_from_front(first, fields);
    lemma_ended_lines(first, fields, name);
}

proof fn lemma_ended_lines(first: Seq<char>, fields: Seq<Field>, name: Seq<char>)
    requires
        lacks(first, '\r'),
        forall|j: int| 0 <= j < fields.len() ==> is_field(#[trigger] fields[j]),
    ensures
        header_of(lines_from(first, fields) + seq!['\r', '\n', '\r', '\n'], name) == header_of(
            lines_from(first, fields),
            name,
        ),
    decreases fields.len(),
{
    let end = seq!['\r', '\n', '\r', '\n'];
    let none = Seq::<char>::empty();
    assert(seq!['\r', '\n'] =~= LINE_END@);
    reveal_with_fuel(first_value, 4);
    if fields.len() == 0 {
        let after = none + LINE_END@ + none;
        lemma_whole_piece(none, LINE_END@);
        lemma_piece_before(none, LINE_END@, none);
        lemma_piece_before(first, LINE_END@, after);
        assert(first + end =~= first + LINE_END@ + after);
        let all = pieces(first + end, LINE_END@);
        assert(all =~= seq![first, none, none]);
        assert(all.skip(1) =~= seq![none, none]);
        assert(seq![none, none].skip(1) =~= seq![none]);
        assert(seq![none].skip(1) =~= Seq::<Seq<char>>::empty());
        assert(line_value(none, name) is None);
        lemma_whole_piece(first, LINE_END@);
        assert(seq![first].skip(1) =~= Seq::<Seq<char>>::empty());
    } else {
        let tail = fields.skip(1);
        let line = field_line(fields[0]);
        let rest = lines_from(line, tail);
        assert(is_field(fields[0]));
        lemma_field_line(fields[0]);
        assert forall|j: int| 0 <= j < tail.len() implies is_field(#[trigger] tail[j]) by {
            assert(tail[j] == fields[j + 1]);
        }
        lemma_ended_lines(line, tail, name);
        lemma_piece_before(first, LINE_END@, rest);
        lemma_piece_before(first, LINE_END@, rest + end);
        assert(lines_from(first, fields) + end =~= first + LINE_END@ + (rest + end));
        let one = pieces(lines_from(first, fields), LINE_END@);
        let two = pieces(lines_from(first, fields) + end, LINE_END@);
        assert(one =~= seq![first] + pieces(rest, LINE_END@));
        assert(two =~= seq![first] + pieces(rest + end, LINE_END@));
        assert(one.skip(1) =~= pieces(rest, LINE_END@));
        assert(two.skip(1) =~= pieces(rest + end, LINE_END@));
    }
}

/// A block with all but the last byte of an empty line behind it.
pub open spec fn nearly_ended(block: Seq<u8>) -> Seq<u8> {
    block + seq![13u8, 10, 13]
}

/// Whether a block holds no empty line, nor begins one that its end completes.
pub open spec fn has_no_empty_line(block: Seq<u8>) -> bool {
    forall|i: int| !#[trigger] ends_headers(nearly_ended(block), i)
}

/// Where a header block ends: at the first empty line, wherever its lines have none.
pub proof fn law_block_ends_at_the_empty_line(block: Seq<u8>, rest: Seq<u8>)
    requires
        has_no_empty_line(block),
    ensures
        terminator_from(block + seq![13u8, 10, 13, 10] + rest, 0) == Some(block.len() as int),
{
    let s = block + seq![13u8, 10, 13, 10] + rest;
    assert(ends_headers(s, block.len() as int));
    lemma_first_terminator(block, rest, 0);
}

proof fn lemma_first_terminator(block: Seq<u8>, rest: Seq<u8>, i: int)
    requires
        has_no_empty_line(block),
        0 <= i <= block.len(),
    ensures
        terminator_from(block + seq![13u8, 10, 13, 10] + rest, i) == Some(block.len() as int),
    decreases block.len() - i,
{
    let s = block + seq![13u8, 10, 13, 10] + rest;
    let t = nearly_ended(block);
    assert(ends_headers(s, block.len() as int));
    if i < block.len() {
        assert(!ends_headers(t, i));
        assert(s[i] == t[i] && s[i + 1] == t[i + 1] && s[i + 2] == t[i + 2]);
        assert(i + 3 < t.len() && s[i + 3] == t[i + 3]);
        lemma_first_terminator(block, rest, i + 1);
    }
}

} // verus!
