//! Laws of what a camera declares about its stream.

use crate::amf::{
    last_number, last_text, metadata_in, metadata_of, pairs_at, value_at, AmfView, METADATA_PREAMBLE,
};
use crate::ieee754::Binary32;
use crate::number_laws::{
    law_whole_numbers_are_narrowed, law_whole_numbers_are_read, leads, whole32, whole64,
};
use crate::text::text_in;
use vstd::prelude::*;
use vstd::utf8::{encode_utf8, encode_utf8_decode_utf8, encode_utf8_valid_utf8};

verus! {

/// A length in two bytes.
pub open spec fn written_length(n: int) -> Seq<u8> {
    seq![(n / 256) as u8, (n % 256) as u8]
}

/// A number's bits in eight bytes.
pub open spec fn written_bits(bits: u64) -> Seq<u8> {
    seq![
        (bits / 0x100_0000_0000_0000) as u8,
        (bits / 0x1_0000_0000_0000 % 256) as u8,
        (bits / 0x100_0000_0000 % 256) as u8,
        (bits / 0x1_0000_0000 % 256) as u8,
        (bits / 0x100_0000 % 256) as u8,
        (bits / 0x1_0000 % 256) as u8,
        (bits / 0x100 % 256) as u8,
        (bits % 256) as u8,
    ]
}

/// A number, a truth value or a short text on the wire.
pub open spec fn written_value(v: AmfView) -> Seq<u8> {
    match v {
        AmfView::Number(bits) => seq![0u8] + written_bits(bits),
        AmfView::Boolean(b) => seq![1u8, if b { 1u8 } else { 0u8 }],
        AmfView::Text(t) => seq![2u8] + written_length(encode_utf8(t).len() as int) + encode_utf8(t),
        _ => Seq::empty(),
    }
}

/// Whether a property can be written so: it has a name, and its texts are short.
pub open spec fn is_plain(pair: (Seq<char>, AmfView)) -> bool {
    &&& 0 < encode_utf8(pair.0).len() <= 0xFFFF
    &&& pair.1 is Number || pair.1 is Boolean || (pair.1 is Text && encode_utf8(pair.1->Text_0).len() <= 0xFFFF)
}

/// Properties on the wire, with the end marker behind them.
pub open spec fn written_pairs(pairs: Seq<(Seq<char>, AmfView)>) -> Seq<u8>
    decreases pairs.len(),
{
    if pairs.len() == 0 {
        seq![0u8, 0, 9]
    } else {
        let key = encode_utf8(pairs[0].0);
        written_length(key.len() as int) + key + written_value(pairs[0].1) + written_pairs(pairs.skip(1))
    }
}

proof fn lemma_text_reads_back(t: Seq<char>)
    ensures
        text_in(encode_utf8(t)) == t,
{
    encode_utf8_valid_utf8(t);
    encode_utf8_decode_utf8(t);
}

proof fn lemma_bits_read_back(bits: u64)
    ensures
        ({
            let w = written_bits(bits);
            (((((((w[0] * 256 + w[1]) * 256 + w[2]) * 256 + w[3]) * 256 + w[4]) * 256 + w[5]) * 256 + w[6]) * 256
                + w[7]) == bits
        }),
{
    let a = bits / 0x100;
    let b = a / 0x100;
    let c = b / 0x100;
    let d = c / 0x100;
    let e = d / 0x100;
    let f = e / 0x100;
    let g = f / 0x100;
    assert(b == bits / 0x1_0000 && c == bits / 0x100_0000 && d == bits / 0x1_0000_0000);
    assert(e == bits / 0x100_0000_0000 && f == bits / 0x1_0000_0000_0000 && g == bits / 0x100_0000_0000_0000);
}

/// A value is read back, and what follows it is left.
pub proof fn law_values_are_read_back(v: AmfView, rest: Seq<u8>)
    requires
        v is Number || v is Boolean || (v is Text && encode_utf8(v->Text_0).len() <= 0xFFFF),
    ensures
        value_at(written_value(v) + rest) == Some((v, rest)),
{
    let s = written_value(v) + rest;
    let t = s.skip(1);
    match v {
        AmfView::Number(bits) => {
            lemma_bits_read_back(bits);
            let w = written_bits(bits);
            assert(t =~= w + rest);
            assert(t.skip(8) =~= rest);
            assert(t[0] == w[0] && t[1] == w[1] && t[2] == w[2] && t[3] == w[3]);
            assert(t[4] == w[4] && t[5] == w[5] && t[6] == w[6] && t[7] == w[7]);
        },
        AmfView::Boolean(b) => {
            assert(t.skip(1) =~= rest);
        },
        AmfView::Text(x) => {
            let n = encode_utf8(x).len() as int;
            assert(t[0] == (n / 256) as u8 && t[1] == (n % 256) as u8);
            assert(t.subrange(2, 2 + n) =~= encode_utf8(x));
            assert(t.skip(2 + n) =~= rest);
            lemma_text_reads_back(x);
        },
        _ => {},
    }
}

/// Properties are read back, in their order.
pub proof fn law_properties_are_read_back(pairs: Seq<(Seq<char>, AmfView)>, rest: Seq<u8>)
    requires
        forall|i: int| 0 <= i < pairs.len() ==> is_plain(#[trigger] pairs[i]),
    ensures
        pairs_at(written_pairs(pairs) + rest) == Some((pairs, rest)),
    decreases pairs.len(),
{
    let s = written_pairs(pairs) + rest;
    if pairs.len() == 0 {
        assert(s.skip(3) =~= rest);
        assert(pairs =~= Seq::empty());
    } else {
        let key = encode_utf8(pairs[0].0);
        let n = key.len() as int;
        let tail = pairs.skip(1);
        assert(is_plain(pairs[0]));
        assert forall|i: int| 0 <= i < tail.len() implies is_plain(#[trigger] tail[i]) by {
            assert(tail[i] == pairs[i + 1]);
        }
        law_properties_are_read_back(tail, rest);
        let more = written_pairs(tail) + rest;
        assert(s[0] == (n / 256) as u8 && s[1] == (n % 256) as u8);
        assert(s.subrange(2, 2 + n) =~= key);
        lemma_text_reads_back(pairs[0].0);
        assert(s.skip(2 + n) =~= written_value(pairs[0].1) + more);
        law_values_are_read_back(pairs[0].1, more);
        assert(seq![pairs[0]] + tail =~= pairs);
    }
}

/// What a camera declares is what is read of its `onMetaData` tag, whether it writes the properties
/// as an object or as an ECMA array, whose count does not matter.
pub proof fn law_declarations_are_read(pairs: Seq<(Seq<char>, AmfView)>, count: Seq<u8>, rest: Seq<u8>)
    requires
        forall|i: int| 0 <= i < pairs.len() ==> is_plain(#[trigger] pairs[i]),
        count.len() == 4,
    ensures
        metadata_in(METADATA_PREAMBLE@ + seq![3u8] + written_pairs(pairs) + rest) == Some(metadata_of(pairs)),
        metadata_in(METADATA_PREAMBLE@ + seq![8u8] + count + written_pairs(pairs) + rest) == Some(metadata_of(pairs)),
{
    let object = METADATA_PREAMBLE@ + seq![3u8] + written_pairs(pairs) + rest;
    let array = METADATA_PREAMBLE@ + seq![8u8] + count + written_pairs(pairs) + rest;
    law_properties_are_read_back(pairs, rest);
    assert(object.take(13) =~= METADATA_PREAMBLE@);
    assert(array.take(13) =~= METADATA_PREAMBLE@);
    let a = object.skip(13);
    let b = array.skip(13);
    assert(a[0] == 3 && b[0] == 8);
    assert(a.skip(1) =~= written_pairs(pairs) + rest);
    assert(b.skip(1).skip(4) =~= written_pairs(pairs) + rest);
}

/// The last number under a name is the one that counts.
proof fn lemma_last_number(pairs: Seq<(Seq<char>, AmfView)>, i: int, name: Seq<char>, bits: u64)
    requires
        0 <= i < pairs.len(),
        pairs[i] == (name, AmfView::Number(bits)),
        forall|j: int| i < j < pairs.len() ==> (#[trigger] pairs[j]).0 != name || !(pairs[j].1 is Number),
    ensures
        last_number(pairs, name) == Some(bits),
    decreases pairs.len(),
{
    if i < pairs.len() - 1 {
        let j = pairs.len() - 1;
        assert(pairs[j].0 != name || !(pairs[j].1 is Number));
        lemma_last_number(pairs.drop_last(), i, name, bits);
    }
}

proof fn lemma_no_number(pairs: Seq<(Seq<char>, AmfView)>, name: Seq<char>)
    requires
        forall|j: int| 0 <= j < pairs.len() ==> (#[trigger] pairs[j]).0 != name || !(pairs[j].1 is Number),
    ensures
        last_number(pairs, name) is None,
    decreases pairs.len(),
{
    if pairs.len() > 0 {
        let j = pairs.len() - 1;
        assert(pairs[j].0 != name || !(pairs[j].1 is Number));
        lemma_no_number(pairs.drop_last(), name);
    }
}

proof fn lemma_last_text(pairs: Seq<(Seq<char>, AmfView)>, i: int, name: Seq<char>, t: Seq<char>)
    requires
        0 <= i < pairs.len(),
        pairs[i] == (name, AmfView::Text(t)) || pairs[i] == (name, AmfView::LongText(t)),
        forall|j: int|
            i < j < pairs.len() ==> (#[trigger] pairs[j]).0 != name || !(pairs[j].1 is Text || pairs[j].1 is LongText),
    ensures
        last_text(pairs, name) == Some(t),
    decreases pairs.len(),
{
    if i < pairs.len() - 1 {
        let j = pairs.len() - 1;
        assert(pairs[j].0 != name || !(pairs[j].1 is Text || pairs[j].1 is LongText));
        lemma_last_text(pairs.drop_last(), i, name, t);
    }
}

/// A number under `videoWidth` is the width, one under `videoHeight` the height and one under
/// `videoFps` the rate, whatever else is declared; the last one counts. Whole numbers are taken as they
/// are. Without a number under its name a value is not declared.
pub proof fn law_numbers_go_by_their_names(
    pairs: Seq<(Seq<char>, AmfView)>,
    i: int,
    name: Seq<char>,
    n: u32,
    k: nat,
)
    requires
        k < 24,
        leads(n as int, k),
        0 <= i < pairs.len(),
        pairs[i] == (name, AmfView::Number(whole64(n as int, k) as u64)),
        forall|j: int| i < j < pairs.len() ==> (#[trigger] pairs[j]).0 != name || !(pairs[j].1 is Number),
    ensures
        name == "videoWidth"@ ==> metadata_of(pairs).width == Some(n),
        name == "videoHeight"@ ==> metadata_of(pairs).height == Some(n),
        name == "videoFps"@ ==> metadata_of(pairs).fps == Some(Binary32 { bits: whole32(n as int, k) as u32 }),
{
    lemma_last_number(pairs, i, name, whole64(n as int, k) as u64);
    law_whole_numbers_are_read(n, k);
    law_whole_numbers_are_narrowed(n, k);
}

/// What is not declared as a number stays undeclared, and a text under `streamName` is the stream's
/// name.
pub proof fn law_undeclared_values_are_none(pairs: Seq<(Seq<char>, AmfView)>, i: int, t: Seq<char>)
    ensures
        (forall|j: int| 0 <= j < pairs.len() ==> (#[trigger] pairs[j]).0 != "videoWidth"@ || !(pairs[j].1 is Number))
            ==> metadata_of(pairs).width is None,
        (forall|j: int| 0 <= j < pairs.len() ==> (#[trigger] pairs[j]).0 != "videoHeight"@ || !(pairs[j].1 is Number))
            ==> metadata_of(pairs).height is None,
        (forall|j: int| 0 <= j < pairs.len() ==> (#[trigger] pairs[j]).0 != "videoFps"@ || !(pairs[j].1 is Number))
            ==> metadata_of(pairs).fps is None,
        0 <= i < pairs.len() && (pairs[i] == ("streamName"@, AmfView::Text(t)) || pairs[i] == (
            "streamName"@,
            AmfView::LongText(t),
        )) && (forall|j: int|
            i < j < pairs.len() ==> (#[trigger] pairs[j]).0 != "streamName"@ || !(pairs[j].1 is Text
                || pairs[j].1 is LongText)) ==> metadata_of(pairs).stream_name == Some(t),
{
    if forall|j: int| 0 <= j < pairs.len() ==> (#[trigger] pairs[j]).0 != "videoWidth"@ || !(pairs[j].1 is Number) {
        lemma_no_number(pairs, "videoWidth"@);
    }
    if forall|j: int| 0 <= j < pairs.len() ==> (#[trigger] pairs[j]).0 != "videoHeight"@ || !(pairs[j].1 is Number) {
        lemma_no_number(pairs, "videoHeight"@);
    }
    if forall|j: int| 0 <= j < pairs.len() ==> (#[trigger] pairs[j]).0 != "videoFps"@ || !(pairs[j].1 is Number) {
        lemma_no_number(pairs, "videoFps"@);
    }
    if 0 <= i < pairs.len() && (pairs[i] == ("streamName"@, AmfView::Text(t)) || pairs[i] == (
        "streamName"@,
        AmfView::LongText(t),
    )) && (forall|j: int|
        i < j < pairs.len() ==> (#[trigger] pairs[j]).0 != "streamName"@ || !(pairs[j].1 is Text
            || pairs[j].1 is LongText)) {
        lemma_last_text(pairs, i, "streamName"@, t);
    }
}

} // verus!
