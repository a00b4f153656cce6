//! AMF0 reader, as much as it takes to find the video size, frame rate and stream name in the body of
//! an `onMetaData` script tag. Markers it does not know end the walk; nothing is ever written.

use crate::bytes::{be16, be32, bytes_eq, read_be16, read_be32};
use crate::ieee754::{
    binary64_to_binary32, binary64_to_u32, narrowed, to_u32_saturating, Binary32,
};
use crate::text::{str_eq, text_in, utf8_lossy};
use vstd::prelude::*;
use vstd::slice::slice_subrange;
use vstd::utf8::{encode_utf8, encode_utf8_decode_utf8, encode_utf8_valid_utf8, is_ascii_chars_encode_utf8};

verus! {

/// Marker of a number: eight bytes, binary64, big-endian.
pub const MARKER_NUMBER: u8 = 0x00;

/// Marker of a boolean: one byte.
pub const MARKER_BOOLEAN: u8 = 0x01;

/// Marker of a string: a 16-bit length and that many bytes.
pub const MARKER_STRING: u8 = 0x02;

/// Marker of an object: pairs up to the end marker.
pub const MARKER_OBJECT: u8 = 0x03;

/// Marker of an ECMA array: a 32-bit count, which is only a hint, then as an object.
pub const MARKER_ECMA_ARRAY: u8 = 0x08;

/// End of an object or ECMA array, behind an empty key.
pub const MARKER_OBJECT_END: u8 = 0x09;

/// Marker of a strict array: a 32-bit count and that many values.
pub const MARKER_STRICT_ARRAY: u8 = 0x0A;

/// Marker of a date: a binary64 time stamp and a 16-bit time zone.
pub const MARKER_DATE: u8 = 0x0B;

/// Marker of a long string: a 32-bit length and that many bytes.
pub const MARKER_LONG_STRING: u8 = 0x0C;

/// How an `onMetaData` tag begins: string marker, length 10, the name in ASCII.
pub const METADATA_PREAMBLE: [u8; 13] = [
    0x02,
    0x00,
    0x0A,
    0x6F,
    0x6E,
    0x4D,
    0x65,
    0x74,
    0x61,
    0x44,
    0x61,
    0x74,
    0x61,
];

/// A decoded value. Numbers keep their bit pattern.
#[derive(Debug, PartialEq, Eq)]
pub enum AmfValue {
    Number(u64),
    Boolean(bool),
    Text(String),
    Object(Vec<(String, AmfValue)>),
    EcmaArray(Vec<(String, AmfValue)>),
    StrictArray(Vec<AmfValue>),
    /// Time stamp and zone are dropped.
    Date,
    LongText(String),
    /// An end marker where a value was due.
    ObjectEnd,
    /// Any other marker; how long its value would be is not known.
    Unknown(u8),
}

/// What a decoded value stands for.
#[verifier::ext_equal]
pub enum AmfView {
    Number(u64),
    Boolean(bool),
    Text(Seq<char>),
    Object(Seq<(Seq<char>, AmfView)>),
    EcmaArray(Seq<(Seq<char>, AmfView)>),
    StrictArray(Seq<AmfView>),
    Date,
    LongText(Seq<char>),
    ObjectEnd,
    Unknown(u8),
}

impl AmfValue {
    pub open spec fn view(self) -> AmfView
        decreases self,
    {
        match self {
            AmfValue::Number(bits) => AmfView::Number(bits),
            AmfValue::Boolean(b) => AmfView::Boolean(b),
            AmfValue::Text(s) => AmfView::Text(s@),
            AmfValue::Object(pairs) => AmfView::Object(
                Seq::new(
                    pairs@.len(),
                    |i: int|
                        if 0 <= i < pairs@.len() {
                            (pairs@[i].0@, pairs@[i].1.view())
                        } else {
                            arbitrary()
                        },
                ),
            ),
            AmfValue::EcmaArray(pairs) => AmfView::EcmaArray(
                Seq::new(
                    pairs@.len(),
                    |i: int|
                        if 0 <= i < pairs@.len() {
                            (pairs@[i].0@, pairs@[i].1.view())
                        } else {
                            arbitrary()
                        },
                ),
            ),
            AmfValue::StrictArray(values) => AmfView::StrictArray(
                Seq::new(
                    values@.len(),
                    |i: int|
                        if 0 <= i < values@.len() {
                            values@[i].view()
                        } else {
                            arbitrary()
                        },
                ),
            ),
            AmfValue::Date => AmfView::Date,
            AmfValue::LongText(s) => AmfView::LongText(s@),
            AmfValue::ObjectEnd => AmfView::ObjectEnd,
            AmfValue::Unknown(m) => AmfView::Unknown(m),
        }
    }
}

/// What a list of pairs stands for.
pub open spec fn pair_views(pairs: Seq<(String, AmfValue)>) -> Seq<(Seq<char>, AmfView)> {
    Seq::new(pairs.len(), |i: int| (pairs[i].0@, pairs[i].1@))
}

proof fn lemma_pairs_view(pairs: Vec<(String, AmfValue)>)
    ensures
        AmfValue::Object(pairs)@ == AmfView::Object(pair_views(pairs@)),
        AmfValue::EcmaArray(pairs)@ == AmfView::EcmaArray(pair_views(pairs@)),
{
    assert(AmfValue::Object(pairs)@->Object_0 =~= pair_views(pairs@));
    assert(AmfValue::EcmaArray(pairs)@->EcmaArray_0 =~= pair_views(pairs@));
}

/// What a list of values stands for.
pub open spec fn value_views(values: Seq<AmfValue>) -> Seq<AmfView> {
    Seq::new(values.len(), |i: int| values[i]@)
}

/// The value that eight bytes hold as a big-endian number.
pub open spec fn be64(s: Seq<u8>) -> u64 {
    (be32(s[0], s[1], s[2], s[3]) * 0x1_0000_0000 + be32(s[4], s[5], s[6], s[7])) as u64
}

/// The value at the head of `s`, and what follows it; `None` where `s` ends too early or an object
/// is not closed by its end marker.
pub open spec fn value_at(s: Seq<u8>) -> Option<(AmfView, Seq<u8>)>
    decreases s.len(), 0int,
{
    if s.len() == 0 {
        None
    } else {
        let marker = s[0];
        let t = s.skip(1);
        if marker == MARKER_NUMBER {
            if t.len() < 8 {
                None
            } else {
                Some((AmfView::Number(be64(t)), t.skip(8)))
            }
        } else if marker == MARKER_BOOLEAN {
            if t.len() < 1 {
                None
            } else {
                Some((AmfView::Boolean(t[0] != 0), t.skip(1)))
            }
        } else if marker == MARKER_STRING {
            if t.len() < 2 || t.len() < 2 + be16(t[0], t[1]) {
                None
            } else {
                let n = be16(t[0], t[1]);
                Some((AmfView::Text(text_in(t.subrange(2, 2 + n))), t.skip(2 + n)))
            }
        } else if marker == MARKER_OBJECT {
            match pairs_at(t) {
                None => None,
                Some((pairs, rest)) => Some((AmfView::Object(pairs), rest)),
            }
        } else if marker == MARKER_ECMA_ARRAY {
            if t.len() < 4 {
                None
            } else {
                match pairs_at(t.skip(4)) {
                    None => None,
                    Some((pairs, rest)) => Some((AmfView::EcmaArray(pairs), rest)),
                }
            }
        } else if marker == MARKER_OBJECT_END {
            Some((AmfView::ObjectEnd, t))
        } else if marker == MARKER_STRICT_ARRAY {
            if t.len() < 4 {
                None
            } else {
                match values_at(t.skip(4), be32(t[0], t[1], t[2], t[3])) {
                    None => None,
                    Some((values, rest)) => Some((AmfView::StrictArray(values), rest)),
                }
            }
        } else if marker == MARKER_DATE {
            if t.len() < 10 {
                None
            } else {
                Some((AmfView::Date, t.skip(10)))
            }
        } else if marker == MARKER_LONG_STRING {
            if t.len() < 4 || t.len() < 4 + be32(t[0], t[1], t[2], t[3]) {
                None
            } else {
                let n = be32(t[0], t[1], t[2], t[3]);
                Some((AmfView::LongText(text_in(t.subrange(4, 4 + n))), t.skip(4 + n)))
            }
        } else {
            Some((AmfView::Unknown(marker), t))
        }
    }
}

/// The pairs at the head of `s`, up to and with the end marker, and what follows. A value of unknown
/// kind is the last one.
pub open spec fn pairs_at(s: Seq<u8>) -> Option<(Seq<(Seq<char>, AmfView)>, Seq<u8>)>
    decreases s.len(), 1int,
{
    if s.len() < 2 {
        None
    } else {
        let n = be16(s[0], s[1]);
        if n == 0 {
            if s.len() < 3 || s[2] != MARKER_OBJECT_END {
                None
            } else {
                Some((Seq::empty(), s.skip(3)))
            }
        } else if s.len() < 2 + n {
            None
        } else {
            let key = text_in(s.subrange(2, 2 + n));
            match value_at(s.skip(2 + n)) {
                None => None,
                Some((value, rest)) => if value is Unknown {
                    Some((seq![(key, value)], rest))
                } else if rest.len() < s.len() {
                    match pairs_at(rest) {
                        None => None,
                        Some((more, end)) => Some((seq![(key, value)] + more, end)),
                    }
                } else {
                    None
                },
            }
        }
    }
}

/// The `count` values at the head of `s`, and what follows. A value of unknown kind is the last one.
pub open spec fn values_at(s: Seq<u8>, count: int) -> Option<(Seq<AmfView>, Seq<u8>)>
    decreases s.len(), 1int,
{
    if count <= 0 {
        Some((Seq::empty(), s))
    } else {
        match value_at(s) {
            None => None,
            Some((value, rest)) => if value is Unknown {
                Some((seq![value], rest))
            } else if rest.len() < s.len() {
                match values_at(rest, count - 1) {
                    None => None,
                    Some((more, end)) => Some((seq![value] + more, end)),
                }
            } else {
                None
            },
        }
    }
}

/// What follows a value is shorter than what it was read from.
proof fn lemma_value_shortens(s: Seq<u8>)
    ensures
        value_at(s) matches Some((_, rest)) ==> rest.len() < s.len(),
    decreases s.len(), 0int,
{
    if s.len() > 0 {
        let t = s.skip(1);
        lemma_pairs_shorten(t);
        if t.len() >= 4 {
            lemma_pairs_shorten(t.skip(4));
            lemma_values_shorten(t.skip(4), be32(t[0], t[1], t[2], t[3]));
        }
    }
}

proof fn lemma_pairs_shorten(s: Seq<u8>)
    ensures
        pairs_at(s) matches Some((_, rest)) ==> rest.len() < s.len(),
    decreases s.len(), 1int,
{
    if s.len() >= 2 {
        let n = be16(s[0], s[1]);
        if n != 0 && s.len() >= 2 + n {
            lemma_value_shortens(s.skip(2 + n));
            match value_at(s.skip(2 + n)) {
                Some((_, rest)) => {
                    lemma_pairs_shorten(rest);
                },
                None => {},
            }
        }
    }
}

proof fn lemma_values_shorten(s: Seq<u8>, count: int)
    ensures
        values_at(s, count) matches Some((_, rest)) ==> rest.len() <= s.len(),
    decreases s.len(), 1int,
{
    if count > 0 {
        lemma_value_shortens(s);
        match value_at(s) {
            Some((_, rest)) => {
                lemma_values_shorten(rest, count - 1);
            },
            None => {},
        }
    }
}

/// Cursor over a tag body.
pub struct Reader<'a> {
    buf: &'a [u8],
    pos: usize,
}

impl<'a> Reader<'a> {
    /// The cursor lies within the buffer.
    pub closed spec fn wf(self) -> bool {
        self.pos <= self.buf@.len()
    }

    /// What is left to read.
    pub closed spec fn rest(self) -> Seq<u8> {
        self.buf@.skip(self.pos as int)
    }

    pub fn new(buf: &'a [u8]) -> (r: Reader<'a>)
        ensures
            r.wf(),
            r.rest() == buf@,
    {
        let r = Reader { buf, pos: 0 };
        assert(r.rest() =~= buf@);
        r
    }

    fn read_u8(&mut self) -> (r: Option<u8>)
        requires
            old(self).wf(),
        ensures
            final(self).wf(),
            r is Some <==> old(self).rest().len() >= 1,
            r matches Some(b) ==> b == old(self).rest()[0] && final(self).rest() == old(self).rest().skip(1),
    {
        if self.pos >= self.buf.len() {
            return None;
        }
        let b = self.buf[self.pos];
        self.pos += 1;
        assert(self.rest() =~= old(self).rest().skip(1));
        Some(b)
    }

    /// Takes `n` bytes.
    fn read_bytes(&mut self, n: usize) -> (r: Option<&'a [u8]>)
        requires
            old(self).wf(),
        ensures
            final(self).wf(),
            r is Some <==> old(self).rest().len() >= n,
            r matches Some(b) ==> b@ == old(self).rest().take(n as int) && final(self).rest() == old(self).rest().skip(n as int),
    {
        if n > self.buf.len() - self.pos {
            return None;
        }
        let end: usize = self.pos + n;
        let slice = slice_subrange(self.buf, self.pos, end);
        assert(slice@ =~= self.rest().take(n as int));
        self.pos = end;
        assert(self.rest() =~= old(self).rest().skip(n as int));
        Some(slice)
    }

    fn read_u16(&mut self) -> (r: Option<u16>)
        requires
            old(self).wf(),
        ensures
            final(self).wf(),
            r is Some <==> old(self).rest().len() >= 2,
            r matches Some(v) ==> v == be16(old(self).rest()[0], old(self).rest()[1]) && final(self).rest() == old(self).rest().skip(2),
    {
        match self.read_bytes(2) {
            None => None,
            Some(b) => Some(read_be16(b[0], b[1])),
        }
    }

    fn read_u32(&mut self) -> (r: Option<u32>)
        requires
            old(self).wf(),
        ensures
            final(self).wf(),
            r is Some <==> old(self).rest().len() >= 4,
            r matches Some(v) ==> v == be32(
                old(self).rest()[0],
                old(self).rest()[1],
                old(self).rest()[2],
                old(self).rest()[3],
            ) && final(self).rest() == old(self).rest().skip(4),
    {
        match self.read_bytes(4) {
            None => None,
            Some(b) => Some(read_be32(b[0], b[1], b[2], b[3])),
        }
    }

    fn read_u64(&mut self) -> (r: Option<u64>)
        requires
            old(self).wf(),
        ensures
            final(self).wf(),
            r is Some <==> old(self).rest().len() >= 8,
            r matches Some(v) ==> v == be64(old(self).rest()) && final(self).rest() == old(self).rest().skip(8),
    {
        match self.read_bytes(8) {
            None => None,
            Some(b) => Some(
                read_be32(b[0], b[1], b[2], b[3]) as u64 * 0x1_0000_0000 + read_be32(
                    b[4],
                    b[5],
                    b[6],
                    b[7],
                ) as u64,
            ),
        }
    }

    /// Takes `len` bytes as text; what is not UTF-8 is replaced.
    fn read_lossy_string(&mut self, len: usize) -> (r: Option<String>)
        requires
            old(self).wf(),
        ensures
            final(self).wf(),
            r is Some <==> old(self).rest().len() >= len,
            r matches Some(t) ==> t@ == text_in(old(self).rest().take(len as int)) && final(self).rest() == old(self).rest().skip(len as int),
    {
        match self.read_bytes(len) {
            None => None,
            Some(b) => Some(utf8_lossy(b)),
        }
    }

    /// Takes one value. Behind a marker of unknown kind the cursor stands right after the marker.
    pub fn read_value(&mut self) -> (r: Option<AmfValue>)
        requires
            old(self).wf(),
        ensures
            final(self).wf(),
            match value_at(old(self).rest()) {
                None => r is None,
                Some((value, rest)) => r matches Some(v) && v@ == value && final(self).rest() == rest,
            },
        decreases old(self).rest().len(), 0int,
    {
        let ghost s = self.rest();
        let marker: u8 = match self.read_u8() {
            None => return None,
            Some(m) => m,
        };
        let ghost t = self.rest();
        if marker == MARKER_NUMBER {
            match self.read_u64() {
                None => None,
                Some(bits) => Some(AmfValue::Number(bits)),
            }
        } else if marker == MARKER_BOOLEAN {
            match self.read_u8() {
                None => None,
                Some(b) => Some(AmfValue::Boolean(b != 0)),
            }
        } else if marker == MARKER_STRING {
            match self.read_u16() {
                None => None,
                Some(len) => match self.read_lossy_string(len as usize) {
                    None => None,
                    Some(text) => {
                        proof {
                            assert(t.skip(2).take(len as int) =~= t.subrange(2, 2 + len));
                            assert(t.skip(2).skip(len as int) =~= t.skip(2 + len));
                        }
                        Some(AmfValue::Text(text))
                    },
                },
            }
        } else if marker == MARKER_OBJECT {
            match self.read_object_pairs() {
                None => None,
                Some(pairs) => {
                    proof {
                        lemma_pairs_view(pairs);
                    }
                    Some(AmfValue::Object(pairs))
                },
            }
        } else if marker == MARKER_ECMA_ARRAY {
            match self.read_u32() {
                None => None,
                Some(_) => match self.read_object_pairs() {
                    None => None,
                    Some(pairs) => {
                        proof {
                            lemma_pairs_view(pairs);
                        }
                        Some(AmfValue::EcmaArray(pairs))
                    },
                },
            }
        } else if marker == MARKER_OBJECT_END {
            Some(AmfValue::ObjectEnd)
        } else if marker == MARKER_STRICT_ARRAY {
            match self.read_u32() {
                None => None,
                Some(count) => match self.read_values(count) {
                    None => None,
                    Some(values) => {
                        let v = AmfValue::StrictArray(values);
                        assert(v@->StrictArray_0 =~= value_views(values@));
                        Some(v)
                    },
                },
            }
        } else if marker == MARKER_DATE {
            match self.read_bytes(10) {
                None => None,
                Some(_) => Some(AmfValue::Date),
            }
        } else if marker == MARKER_LONG_STRING {
            match self.read_u32() {
                None => None,
                Some(len) => match self.read_lossy_string(len as usize) {
                    None => None,
                    Some(text) => {
                        proof {
                            assert(t.skip(4).take(len as int) =~= t.subrange(4, 4 + len));
                            assert(t.skip(4).skip(len as int) =~= t.skip(4 + len));
                        }
                        Some(AmfValue::LongText(text))
                    },
                },
            }
        } else {
            Some(AmfValue::Unknown(marker))
        }
    }

    /// Takes pairs up to the end marker, or up to a value of unknown kind.
    fn read_object_pairs(&mut self) -> (r: Option<Vec<(String, AmfValue)>>)
        requires
            old(self).wf(),
        ensures
            final(self).wf(),
            match pairs_at(old(self).rest()) {
                None => r is None,
                Some((pairs, rest)) => r matches Some(v) && pair_views(v@) == pairs && final(self).rest() == rest,
            },
        decreases old(self).rest().len(), 1int,
    {
        let mut pairs: Vec<(String, AmfValue)> = Vec::new();
        let ghost whole = pairs_at(self.rest());
        proof {
            assert(pair_views(pairs@) =~= Seq::empty());
            if let Some((more, end)) = whole {
                assert(Seq::<(Seq<char>, AmfView)>::empty() + more =~= more);
            }
        }
        loop
            invariant
                self.wf(),
                self.rest().len() <= old(self).rest().len(),
                whole == pairs_at(old(self).rest()),
                whole == match pairs_at(self.rest()) {
                    None => None,
                    Some((more, end)) => Some((pair_views(pairs@) + more, end)),
                },
            decreases self.rest().len(),
        {
            let ghost s = self.rest();
            let key_len: u16 = match self.read_u16() {
                None => return None,
                Some(n) => n,
            };
            if key_len == 0 {
                match self.read_u8() {
                    None => return None,
                    Some(end) => {
                        if end != MARKER_OBJECT_END {
                            return None;
                        }
                    },
                }
                assert(s.skip(2).skip(1) =~= s.skip(3));
                assert(pair_views(pairs@) + Seq::empty() =~= pair_views(pairs@));
                return Some(pairs);
            }
            let key: String = match self.read_lossy_string(key_len as usize) {
                None => return None,
                Some(k) => k,
            };
            proof {
                assert(s.skip(2).take(key_len as int) =~= s.subrange(2, 2 + key_len));
                assert(s.skip(2).skip(key_len as int) =~= s.skip(2 + key_len));
                lemma_value_shortens(s.skip(2 + key_len));
            }
            let value: AmfValue = match self.read_value() {
                None => return None,
                Some(v) => v,
            };
            let unknown = match &value {
                AmfValue::Unknown(_) => true,
                _ => false,
            };
            let ghost before = pair_views(pairs@);
            let ghost item = (key@, value@);
            pairs.push((key, value));
            proof {
                assert(pair_views(pairs@) =~= before.push(item));
                assert(before + seq![item] =~= before.push(item));
            }
            if unknown {
                return Some(pairs);
            }
            proof {
                if let Some((more, end)) = pairs_at(self.rest()) {
                    assert(before + (seq![item] + more) =~= before.push(item) + more);
                }
            }
        }
    }

    /// Takes `count` values, or fewer where one is of unknown kind.
    fn read_values(&mut self, count: u32) -> (r: Option<Vec<AmfValue>>)
        requires
            old(self).wf(),
        ensures
            final(self).wf(),
            match values_at(old(self).rest(), count as int) {
                None => r is None,
                Some((values, rest)) => r matches Some(v) && value_views(v@) == values && final(self).rest() == rest,
            },
        decreases old(self).rest().len(), 1int,
    {
        let mut values: Vec<AmfValue> = Vec::new();
        let ghost whole = values_at(self.rest(), count as int);
        let mut left: u32 = count;
        proof {
            assert(value_views(values@) =~= Seq::empty());
            if let Some((more, end)) = whole {
                assert(Seq::<AmfView>::empty() + more =~= more);
            }
        }
        while left > 0
            invariant
                self.wf(),
                self.rest().len() <= old(self).rest().len(),
                whole == values_at(old(self).rest(), count as int),
                whole == match values_at(self.rest(), left as int) {
                    None => None,
                    Some((more, end)) => Some((value_views(values@) + more, end)),
                },
            decreases left,
        {
            proof {
                lemma_value_shortens(self.rest());
            }
            let value: AmfValue = match self.read_value() {
                None => return None,
                Some(v) => v,
            };
            let unknown = match &value {
                AmfValue::Unknown(_) => true,
                _ => false,
            };
            let ghost before = value_views(values@);
            let ghost item = value@;
            values.push(value);
            proof {
                assert(value_views(values@) =~= before.push(item));
                assert(before + seq![item] =~= before.push(item));
            }
            if unknown {
                return Some(values);
            }
            left -= 1;
            proof {
                if let Some((more, end)) = values_at(self.rest(), left as int) {
                    assert(before + (seq![item] + more) =~= before.push(item) + more);
                }
            }
        }
        assert(value_views(values@) + Seq::empty() =~= value_views(values@));
        Some(values)
    }
}

/// What the proxy keeps of an `onMetaData` tag.
#[derive(Debug, Clone, PartialEq, Eq)]
pub struct StreamMetadata {
    pub width: Option<u32>,
    pub height: Option<u32>,
    pub fps: Option<Binary32>,
    /// Such as `28704E11B531_0`: the camera's MAC and the index of the stream.
    pub stream_name: Option<String>,
}

/// Whether a property counts: its name, with a value of the right kind.
pub open spec fn is_number(pair: (Seq<char>, AmfView), name: Seq<char>) -> bool {
    pair.0 == name && pair.1 is Number
}

pub open spec fn is_text(pair: (Seq<char>, AmfView), name: Seq<char>) -> bool {
    pair.0 == name && (pair.1 is Text || pair.1 is LongText)
}

/// The bits of the last number with that name.
pub open spec fn last_number(pairs: Seq<(Seq<char>, AmfView)>, name: Seq<char>) -> Option<u64>
    decreases pairs.len(),
{
    if pairs.len() == 0 {
        None
    } else if is_number(pairs.last(), name) {
        Some(pairs.last().1->Number_0)
    } else {
        last_number(pairs.drop_last(), name)
    }
}

/// The last text with that name.
pub open spec fn last_text(pairs: Seq<(Seq<char>, AmfView)>, name: Seq<char>) -> Option<Seq<char>>
    decreases pairs.len(),
{
    if pairs.len() == 0 {
        None
    } else if is_text(pairs.last(), name) {
        Some(
            match pairs.last().1 {
                AmfView::Text(t) => t,
                AmfView::LongText(t) => t,
                _ => arbitrary(),
            },
        )
    } else {
        last_text(pairs.drop_last(), name)
    }
}

/// Whether a tag body begins as an `onMetaData` tag does.
pub open spec fn has_metadata_preamble(body: Seq<u8>) -> bool {
    body.len() >= 13 && body.take(13) == METADATA_PREAMBLE@
}

/// The properties that a tag body carries: its first value is the text `onMetaData`, its second an
/// object or ECMA array.
pub open spec fn metadata_pairs(body: Seq<u8>) -> Option<Seq<(Seq<char>, AmfView)>> {
    if has_metadata_preamble(body) {
        match value_at(body.skip(13)) {
            Some((AmfView::EcmaArray(pairs), _)) => Some(pairs),
            Some((AmfView::Object(pairs), _)) => Some(pairs),
            _ => None,
        }
    } else {
        None
    }
}

/// Only a tag body whose first value is the text `onMetaData`, and whose second is an object or ECMA
/// array, gives metadata.
pub proof fn law_only_metadata_tags_give_metadata(body: Seq<u8>)
    requires
        metadata_in(body) is Some,
    ensures
        has_metadata_preamble(body),
        value_at(body) == Some((AmfView::Text("onMetaData"@), body.skip(13))),
        body.len() > 13,
        body[13] == MARKER_ECMA_ARRAY || body[13] == MARKER_OBJECT,
{
    let name = "onMetaData"@;
    let t = body.skip(1);
    reveal_strlit("onMetaData");
    assert forall|i: int| 0 <= i < 13 implies body[i] == METADATA_PREAMBLE@[i] by {
        assert(body.take(13)[i] == body[i]);
    }
    assert(be16(t[0], t[1]) == 10);
    is_ascii_chars_encode_utf8(name);
    assert(t.subrange(2, 12) =~= encode_utf8(name));
    encode_utf8_valid_utf8(name);
    encode_utf8_decode_utf8(name);
    assert(t.skip(12) =~= body.skip(13));
    assert(body.skip(13)[0] == body[13]);
}

/// What metadata stands for.
#[verifier::ext_equal]
pub struct MetadataView {
    pub width: Option<u32>,
    pub height: Option<u32>,
    pub fps: Option<Binary32>,
    pub stream_name: Option<Seq<char>>,
}

impl View for StreamMetadata {
    type V = MetadataView;

    open spec fn view(&self) -> MetadataView {
        MetadataView {
            width: self.width,
            height: self.height,
            fps: self.fps,
            stream_name: match self.stream_name {
                Some(t) => Some(t@),
                None => None,
            },
        }
    }
}

/// The metadata that properties give: sizes truncated to integers, the frame rate narrowed.
pub open spec fn metadata_of(pairs: Seq<(Seq<char>, AmfView)>) -> MetadataView {
    MetadataView {
        width: match last_number(pairs, "videoWidth"@) {
            Some(bits) => Some(to_u32_saturating(bits)),
            None => None,
        },
        height: match last_number(pairs, "videoHeight"@) {
            Some(bits) => Some(to_u32_saturating(bits)),
            None => None,
        },
        fps: match last_number(pairs, "videoFps"@) {
            Some(bits) => Some(Binary32 { bits: narrowed(bits) }),
            None => None,
        },
        stream_name: last_text(pairs, "streamName"@),
    }
}

/// The metadata in a tag body.
pub open spec fn metadata_in(body: Seq<u8>) -> Option<MetadataView> {
    match metadata_pairs(body) {
        Some(pairs) => Some(metadata_of(pairs)),
        None => None,
    }
}

/// Whether a script tag's body begins as an `onMetaData` tag does.
pub fn is_metadata_tag(body: &[u8]) -> (r: bool)
    ensures
        r == has_metadata_preamble(body@),
{
    if body.len() < 13 {
        return false;
    }
    bytes_eq(slice_subrange(body, 0, 13), METADATA_PREAMBLE.as_slice())
}

proof fn lemma_names_differ()
    ensures
        "videoWidth"@ != "videoHeight"@,
        "videoWidth"@ != "videoFps"@,
        "videoHeight"@ != "videoFps"@,
{
    reveal_strlit("videoWidth");
    reveal_strlit("videoHeight");
    reveal_strlit("videoFps");
    assert("videoWidth"@.len() == 10);
    assert("videoHeight"@.len() == 11);
    assert("videoFps"@.len() == 8);
}

/// Reads the body of an `onMetaData` tag. `None` where it is not one, or is cut short; properties of
/// other names or kinds are passed over, and where a name comes twice the later one counts.
pub fn parse_on_metadata(body: &[u8]) -> (r: Option<StreamMetadata>)
    ensures
        match metadata_in(body@) {
            None => r is None,
            Some(m) => r matches Some(meta) && meta@ == m,
        },
{
    if !is_metadata_tag(body) {
        return None;
    }
    let mut reader = Reader::new(slice_subrange(body, 13, body.len()));
    assert(reader.rest() =~= body@.skip(13));
    let pairs: Vec<(String, AmfValue)> = match reader.read_value() {
        Some(AmfValue::EcmaArray(pairs)) => {
            proof {
                lemma_pairs_view(pairs);
            }
            pairs
        },
        Some(AmfValue::Object(pairs)) => {
            proof {
                lemma_pairs_view(pairs);
            }
            pairs
        },
        _ => return None,
    };
    let ghost all = pair_views(pairs@);
    let mut meta = StreamMetadata { width: None, height: None, fps: None, stream_name: None };
    let mut i: usize = 0;
    while i < pairs.len()
        invariant
            i <= pairs@.len(),
            all == pair_views(pairs@),
            meta@ == metadata_of(all.take(i as int)),
        decreases pairs@.len() - i,
    {
        proof {
            lemma_names_differ();
            assert(all.take(i + 1).drop_last() =~= all.take(i as int));
            assert(all.take(i + 1).last() == (pairs@[i as int].0@, pairs@[i as int].1@));
        }
        let key = pairs[i].0.as_str();
        match &pairs[i].1 {
            AmfValue::Number(bits) => {
                if str_eq(key, "videoWidth") {
                    meta.width = Some(binary64_to_u32(*bits));
                } else if str_eq(key, "videoHeight") {
                    meta.height = Some(binary64_to_u32(*bits));
                } else if str_eq(key, "videoFps") {
                    meta.fps = Some(binary64_to_binary32(*bits));
                }
            },
            AmfValue::Text(text) => {
                if str_eq(key, "streamName") {
                    meta.stream_name = Some(text.as_str().to_owned());
                }
            },
            AmfValue::LongText(text) => {
                if str_eq(key, "streamName") {
                    meta.stream_name = Some(text.as_str().to_owned());
                }
            },
            _ => {},
        }
        i += 1;
    }
    assert(all.take(pairs@.len() as int) =~= all);
    Some(meta)
}

} // verus!
