//! Laws of the description that RTSP clients read before they play.

use crate::base64::{base64, decoded, law_decoding_undoes_encoding};
use crate::rtsp_protocol::{served, Method, RequestView, SessionsView};
use crate::sdp::{profile_level_of, sdp_text};
use crate::stream_state::CodecView;
use crate::text::{contains_text, decimal};
use crate::text_laws::{lemma_contains_itself, lemma_contains_sum};
use vstd::prelude::*;
use vstd::utf8::encode_utf8;

verus! {

/// The value of a hexadecimal digit.
pub open spec fn hex_value(c: char) -> int {
    if '0' <= c <= '9' {
        c as int - '0' as int
    } else if 'A' <= c <= 'F' {
        c as int - 'A' as int + 10
    } else {
        -1
    }
}

/// Whether six hexadecimal digits are the three bytes.
pub open spec fn is_hex_of(t: Seq<char>, a: u8, b: u8, c: u8) -> bool {
    &&& t.len() == 6
    &&& 16 * hex_value(t[0]) + hex_value(t[1]) == a
    &&& 16 * hex_value(t[2]) + hex_value(t[3]) == b
    &&& 16 * hex_value(t[4]) + hex_value(t[5]) == c
    &&& forall|i: int| 0 <= i < 6 ==> hex_value(#[trigger] t[i]) >= 0
}

proof fn lemma_within(before: Seq<char>, word: Seq<char>, after: Seq<char>)
    ensures
        contains_text(before + word + after, word),
{
    lemma_contains_itself(word);
    lemma_contains_sum(before, word, word);
    lemma_contains_sum(before + word, after, word);
}

/// The description up to the profile, and from there up to the line of the rate.
spec fn opening_lines(server_ip: Seq<char>) -> Seq<char> {
    "v=0\r\no=- 0 0 IN IP4 "@ + server_ip + "\r\ns=UniFi Camera Stream\r\nt=0 0\r\nm=video 0 RTP/AVP 96"@
        + "\r\na=control:streamid=0\r\na=rtpmap:96 H264/90000"@
        + "\r\na=fmtp:96 packetization-mode=1;profile-level-id="@
}

spec fn sets_line(codec: CodecView) -> Seq<char> {
    ";sprop-parameter-sets="@ + base64(codec.sps) + ","@ + base64(codec.pps) + "\r\n"@
}

spec fn told_profile(codec: CodecView) -> Seq<char> {
    if codec.sps.len() >= 4 {
        profile_level_of(codec.sps)
    } else {
        "42001E"@
    }
}

spec fn rate_line(fps: Option<Seq<char>>) -> Seq<char> {
    match fps {
        Some(rate) => "a=framerate:"@ + rate + "\r\n"@,
        None => Seq::empty(),
    }
}

proof fn lemma_numbers()
    ensures
        decimal(96) == "96"@,
        decimal(90_000) == "90000"@,
{
    reveal_strlit("96");
    reveal_strlit("90000");
    reveal_with_fuel(decimal, 6);
    assert(decimal(96) =~= "96"@);
    assert(decimal(90_000) =~= "90000"@);
}

proof fn lemma_literals()
    ensures
        "\r\ns=UniFi Camera Stream\r\nt=0 0\r\nm=video 0 RTP/AVP "@ + "96"@
            == "\r\ns=UniFi Camera Stream\r\nt=0 0\r\nm=video 0 RTP/AVP 96"@,
        "\r\na=control:streamid=0\r\na=rtpmap:"@ + "96"@ + " H264/"@ + "90000"@
            == "\r\na=control:streamid=0\r\na=rtpmap:96 H264/90000"@,
        "\r\na=fmtp:"@ + "96"@ + " packetization-mode=1;profile-level-id="@
            == "\r\na=fmtp:96 packetization-mode=1;profile-level-id="@,
        ""@.len() == 0,
{
    reveal_strlit("96");
    reveal_strlit("90000");
    reveal_strlit("\r\ns=UniFi Camera Stream\r\nt=0 0\r\nm=video 0 RTP/AVP ");
    reveal_strlit("\r\ns=UniFi Camera Stream\r\nt=0 0\r\nm=video 0 RTP/AVP 96");
    reveal_strlit("\r\na=control:streamid=0\r\na=rtpmap:");
    reveal_strlit(" H264/");
    reveal_strlit("\r\na=control:streamid=0\r\na=rtpmap:96 H264/90000");
    reveal_strlit("\r\na=fmtp:");
    reveal_strlit(" packetization-mode=1;profile-level-id=");
    reveal_strlit("\r\na=fmtp:96 packetization-mode=1;profile-level-id=");
    reveal_strlit("");
    assert("\r\ns=UniFi Camera Stream\r\nt=0 0\r\nm=video 0 RTP/AVP "@ + "96"@
        =~= "\r\ns=UniFi Camera Stream\r\nt=0 0\r\nm=video 0 RTP/AVP 96"@);
    assert("\r\na=control:streamid=0\r\na=rtpmap:"@ + "96"@ + " H264/"@ + "90000"@
        =~= "\r\na=control:streamid=0\r\na=rtpmap:96 H264/90000"@);
    assert("\r\na=fmtp:"@ + "96"@ + " packetization-mode=1;profile-level-id="@
        =~= "\r\na=fmtp:96 packetization-mode=1;profile-level-id="@);
}

/// The description, part by part.
proof fn lemma_parts(codec: CodecView, server_ip: Seq<char>, fps: Option<Seq<char>>)
    ensures
        sdp_text(codec, server_ip, fps) == opening_lines(server_ip) + told_profile(codec) + sets_line(codec)
            + rate_line(fps),
{
    lemma_numbers();
    lemma_literals();
    let a = "v=0\r\no=- 0 0 IN IP4 "@ + server_ip;
    let m1 = "\r\ns=UniFi Camera Stream\r\nt=0 0\r\nm=video 0 RTP/AVP "@;
    let m2 = "\r\na=control:streamid=0\r\na=rtpmap:"@;
    let m3 = " H264/"@;
    let m4 = "\r\na=fmtp:"@;
    let m5 = " packetization-mode=1;profile-level-id="@;
    let n = "96"@;
    let c = "90000"@;
    assert(a + m1 + n + m2 + n + m3 + c + m4 + n + m5 =~= a + (m1 + n) + (m2 + n + m3 + c) + (m4 + n + m5));
    let head = a + m1 + n + m2 + n + m3 + c + m4 + n + m5;
    assert(head == opening_lines(server_ip));
    let rate = match fps {
        Some(rate) => "a=framerate:"@ + rate + "\r\n"@,
        None => ""@,
    };
    assert(rate =~= rate_line(fps));
    let p = told_profile(codec);
    let s1 = ";sprop-parameter-sets="@;
    let s2 = base64(codec.sps);
    let s3 = base64(codec.pps);
    assert(head + p + s1 + s2 + ","@ + s3 + "\r\n"@ + rate =~= head + p + (s1 + s2 + ","@ + s3 + "\r\n"@) + rate);
}

/// The description tells what a client needs to decode the stream, and tells it of the stream's own
/// parameter sets: payload type 96 is H.264 at 90 kHz, as the packets have it; the profile is the
/// three bytes behind the first one of the sequence set, in hexadecimal; and the two sets follow in
/// base64, the sequence set first. The address is the server's. Nothing else of the codec counts.
pub proof fn law_description_tells_the_parameter_sets(
    codec: CodecView,
    other: CodecView,
    server_ip: Seq<char>,
    fps: Option<Seq<char>>,
)
    requires
        other.sps == codec.sps,
        other.pps == codec.pps,
    ensures
        ({
            let t = sdp_text(codec, server_ip, fps);
            &&& sdp_text(other, server_ip, fps) == t
            &&& contains_text(t, "o=- 0 0 IN IP4 "@ + server_ip + "\r\n"@)
            &&& contains_text(t, "\r\nm=video 0 RTP/AVP 96\r\n"@)
            &&& contains_text(t, "\r\na=rtpmap:96 H264/90000\r\n"@)
            &&& exists|id: Seq<char>| #[trigger]
                contains_text(t, "\r\na=fmtp:96 packetization-mode=1;profile-level-id="@ + id + ";"@)
                    && if codec.sps.len() >= 4 {
                    is_hex_of(id, codec.sps[1], codec.sps[2], codec.sps[3])
                } else {
                    id == "42001E"@
                }
            &&& exists|a: Seq<char>, b: Seq<char>| #[trigger]
                contains_text(t, ";sprop-parameter-sets="@ + a + ","@ + b + "\r\n"@) && decoded(a) == codec.sps
                    && decoded(b) == codec.pps
        }),
{
    let t = sdp_text(codec, server_ip, fps);
    lemma_parts(codec, server_ip, fps);
    lemma_parts(other, server_ip, fps);
    let opening = opening_lines(server_ip);
    let profile = told_profile(codec);
    let sets = sets_line(codec);
    let rate = rate_line(fps);
    lemma_opening_lines(server_ip);
    let o = "o=- 0 0 IN IP4 "@ + server_ip + "\r\n"@;
    let m = "\r\nm=video 0 RTP/AVP 96\r\n"@;
    let r = "\r\na=rtpmap:96 H264/90000\r\n"@;
    lemma_front(opening, profile, sets, rate, o);
    lemma_front(opening, profile, sets, rate, m);
    lemma_front(opening, profile, sets, rate, r);
    lemma_profile_told(codec, server_ip, fps);
    lemma_sets_told(codec, server_ip, fps);
}

proof fn lemma_front(a: Seq<char>, b: Seq<char>, c: Seq<char>, d: Seq<char>, word: Seq<char>)
    requires
        contains_text(a, word),
    ensures
        contains_text(a + b + c + d, word),
{
    lemma_contains_sum(a, b, word);
    lemma_contains_sum(a + b, c, word);
    lemma_contains_sum(a + b + c, d, word);
}

proof fn lemma_opening_lines(server_ip: Seq<char>)
    ensures
        contains_text(opening_lines(server_ip), "o=- 0 0 IN IP4 "@ + server_ip + "\r\n"@),
        contains_text(opening_lines(server_ip), "\r\nm=video 0 RTP/AVP 96\r\n"@),
        contains_text(opening_lines(server_ip), "\r\na=rtpmap:96 H264/90000\r\n"@),
{
    reveal_strlit("v=0\r\no=- 0 0 IN IP4 ");
    reveal_strlit("v=0\r\n");
    reveal_strlit("o=- 0 0 IN IP4 ");
    reveal_strlit("\r\n");
    reveal_strlit("\r\ns=UniFi Camera Stream\r\nt=0 0\r\nm=video 0 RTP/AVP 96");
    reveal_strlit("\r\nm=video 0 RTP/AVP 96\r\n");
    reveal_strlit("\r\na=control:streamid=0\r\na=rtpmap:96 H264/90000");
    reveal_strlit("\r\na=rtpmap:96 H264/90000\r\n");
    reveal_strlit("\r\na=fmtp:96 packetization-mode=1;profile-level-id=");
    let t = opening_lines(server_ip);
    let a = "v=0\r\no=- 0 0 IN IP4 "@ + server_ip;
    let b = "\r\ns=UniFi Camera Stream\r\nt=0 0\r\nm=video 0 RTP/AVP 96"@;
    let c = "\r\na=control:streamid=0\r\na=rtpmap:96 H264/90000"@;
    let d = "\r\na=fmtp:96 packetization-mode=1;profile-level-id="@;
    let o = "o=- 0 0 IN IP4 "@ + server_ip + "\r\n"@;
    let m = "\r\nm=video 0 RTP/AVP 96\r\n"@;
    let r = "\r\na=rtpmap:96 H264/90000\r\n"@;
    assert(a + b.take(2) =~= "v=0\r\n"@ + o + Seq::<char>::empty());
    lemma_within("v=0\r\n"@, o, Seq::empty());
    lemma_contains_sum(a + b.take(2), b.skip(2) + c + d, o);
    assert(t =~= (a + b.take(2)) + (b.skip(2) + c + d));
    let k = b.len() - 22;
    assert(b + c.take(2) =~= b.take(k) + m + Seq::<char>::empty());
    lemma_within(b.take(k), m, Seq::empty());
    lemma_contains_sum(a, b + c.take(2), m);
    lemma_contains_sum(a + (b + c.take(2)), c.skip(2) + d, m);
    assert(t =~= a + (b + c.take(2)) + (c.skip(2) + d));
    let j = c.len() - 24;
    assert(c + d.take(2) =~= c.take(j) + r + Seq::<char>::empty());
    lemma_within(c.take(j), r, Seq::empty());
    lemma_contains_sum(a + b, c + d.take(2), r);
    lemma_contains_sum(a + b + (c + d.take(2)), d.skip(2), r);
    assert(t =~= a + b + (c + d.take(2)) + d.skip(2));
}

proof fn lemma_profile_told(codec: CodecView, server_ip: Seq<char>, fps: Option<Seq<char>>)
    ensures
        contains_text(
            sdp_text(codec, server_ip, fps),
            "\r\na=fmtp:96 packetization-mode=1;profile-level-id="@ + told_profile(codec) + ";"@,
        ),
        codec.sps.len() >= 4 ==> is_hex_of(told_profile(codec), codec.sps[1], codec.sps[2], codec.sps[3]),
{
    lemma_parts(codec, server_ip, fps);
    reveal_strlit(";");
    reveal_strlit(";sprop-parameter-sets=");
    let last = "\r\na=fmtp:96 packetization-mode=1;profile-level-id="@;
    let before = "v=0\r\no=- 0 0 IN IP4 "@ + server_ip + "\r\ns=UniFi Camera Stream\r\nt=0 0\r\nm=video 0 RTP/AVP 96"@
        + "\r\na=control:streamid=0\r\na=rtpmap:96 H264/90000"@;
    let p = told_profile(codec);
    let sets = sets_line(codec);
    let rate = rate_line(fps);
    let word = last + p + ";"@;
    assert(sets.take(1) =~= ";"@);
    assert(before + last + p + sets + rate =~= before + word + (sets.skip(1) + rate));
    lemma_within(before, word, sets.skip(1) + rate);
}

proof fn lemma_sets_told(codec: CodecView, server_ip: Seq<char>, fps: Option<Seq<char>>)
    ensures
        contains_text(
            sdp_text(codec, server_ip, fps),
            ";sprop-parameter-sets="@ + base64(codec.sps) + ","@ + base64(codec.pps) + "\r\n"@,
        ),
        decoded(base64(codec.sps)) == codec.sps,
        decoded(base64(codec.pps)) == codec.pps,
{
    lemma_parts(codec, server_ip, fps);
    law_decoding_undoes_encoding(codec.sps);
    law_decoding_undoes_encoding(codec.pps);
    lemma_within(opening_lines(server_ip) + told_profile(codec), sets_line(codec), rate_line(fps));
}

/// A rate is one line more, at the end.
pub proof fn law_rate_is_a_line_of_its_own(codec: CodecView, server_ip: Seq<char>, rate: Seq<char>)
    ensures
        sdp_text(codec, server_ip, Some(rate)) == sdp_text(codec, server_ip, None) + ("a=framerate:"@ + rate + "\r\n"@),
{
    lemma_parts(codec, server_ip, Some(rate));
    lemma_parts(codec, server_ip, None);
    let body = opening_lines(server_ip) + told_profile(codec) + sets_line(codec);
    assert(body + Seq::<char>::empty() =~= body);
}

/// `DESCRIBE` is answered with the description of the hub's codec, as UTF-8, with its kind and the
/// address that further requests go by.
pub proof fn law_describe_answers_with_the_description(
    req: RequestView,
    s: SessionsView,
    server_ip: Seq<char>,
    codec: CodecView,
    fps: Option<Seq<char>>,
    server_rtp: u16,
)
    requires
        req.method == Method::Describe,
    ensures
        ({
            let resp = served(req, s, server_ip, Some(codec), fps, server_rtp).0;
            &&& resp.status == 200
            &&& resp.body == encode_utf8(sdp_text(codec, server_ip, fps))
            &&& resp.headers.contains(("Content-Type"@, "application/sdp"@))
            &&& resp.headers.contains(("Content-Base"@, req.uri + "/"@))
        }),
{
    let resp = served(req, s, server_ip, Some(codec), fps, server_rtp).0;
    assert(resp.headers[0] == ("Content-Type"@, "application/sdp"@));
    assert(resp.headers[1] == ("Content-Base"@, req.uri + "/"@));
}

} // verus!
