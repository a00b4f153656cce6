//! The description of the stream that RTSP clients ask for first.

use crate::base64::{base64, base64_encode};
use crate::rtp::{PAYLOAD_TYPE_H264, RTP_CLOCK_RATE_HZ};
use crate::stream_state::{CodecParams, CodecView};
use crate::text::{decimal, hex2_upper, push_decimal, push_hex2_upper};
use vstd::prelude::*;

verus! {

/// The `profile-level-id` of an SPS: its second to fourth byte in hexadecimal.
pub open spec fn profile_level_of(sps: Seq<u8>) -> Seq<char> {
    hex2_upper(sps[1]) + hex2_upper(sps[2]) + hex2_upper(sps[3])
}

/// The `profile-level-id` of an SPS; none where it is too short.
pub fn profile_level_id(sps: &[u8]) -> (r: Option<String>)
    ensures
        r is Some <==> sps@.len() >= 4,
        r matches Some(t) ==> t@ == profile_level_of(sps@),
{
    if sps.len() < 4 {
        return None;
    }
    let mut out = String::new();
    push_hex2_upper(&mut out, sps[1]);
    push_hex2_upper(&mut out, sps[2]);
    push_hex2_upper(&mut out, sps[3]);
    assert(out@ =~= profile_level_of(sps@));
    Some(out)
}

/// The description: one line for each item, each ended by `\r\n`. Without a frame rate there is no
/// line for it.
pub open spec fn sdp_text(codec: CodecView, server_ip: Seq<char>, fps: Option<Seq<char>>) -> Seq<char> {
    "v=0\r\no=- 0 0 IN IP4 "@ + server_ip + "\r\ns=UniFi Camera Stream\r\nt=0 0\r\nm=video 0 RTP/AVP "@ + decimal(
        PAYLOAD_TYPE_H264 as nat,
    ) + "\r\na=control:streamid=0\r\na=rtpmap:"@ + decimal(PAYLOAD_TYPE_H264 as nat) + " H264/"@ + decimal(
        RTP_CLOCK_RATE_HZ as nat,
    ) + "\r\na=fmtp:"@ + decimal(PAYLOAD_TYPE_H264 as nat) + " packetization-mode=1;profile-level-id="@ + (
    if codec.sps.len() >= 4 {
        profile_level_of(codec.sps)
    } else {
        "42001E"@
    }) + ";sprop-parameter-sets="@ + base64(codec.sps) + ","@ + base64(codec.pps) + "\r\n"@ + (match fps {
        Some(rate) => "a=framerate:"@ + rate + "\r\n"@,
        None => ""@,
    })
}

/// Builds the description. The frame rate comes as text, as the caller formats it.
pub fn build_sdp(codec: &CodecParams, server_ip: &str, fps: Option<&str>) -> (r: String)
    ensures
        r@ == sdp_text(
            codec@,
            server_ip@,
            match fps {
                Some(rate) => Some(rate@),
                None => None,
            },
        ),
{
    let mut out = "v=0\r\no=- 0 0 IN IP4 ".to_owned();
    out.append(server_ip);
    out.append("\r\ns=UniFi Camera Stream\r\nt=0 0\r\nm=video 0 RTP/AVP ");
    push_decimal(&mut out, PAYLOAD_TYPE_H264 as u64);
    out.append("\r\na=control:streamid=0\r\na=rtpmap:");
    push_decimal(&mut out, PAYLOAD_TYPE_H264 as u64);
    out.append(" H264/");
    push_decimal(&mut out, RTP_CLOCK_RATE_HZ as u64);
    out.append("\r\na=fmtp:");
    push_decimal(&mut out, PAYLOAD_TYPE_H264 as u64);
    out.append(" packetization-mode=1;profile-level-id=");
    match profile_level_id(codec.sps.as_slice()) {
        Some(id) => {
            out.append(id.as_str());
        },
        None => {
            out.append("42001E");
        },
    }
    out.append(";sprop-parameter-sets=");
    out.append(base64_encode(codec.sps.as_slice()).as_str());
    out.append(",");
    out.append(base64_encode(codec.pps.as_slice()).as_str());
    out.append("\r\n");
    match fps {
        Some(rate) => {
            let mut line = "a=framerate:".to_owned();
            line.append(rate);
            line.append("\r\n");
            out.append(line.as_str());
        },
        None => {
            out.append("");
        },
    }
    out
}

} // verus!
