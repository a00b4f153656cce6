//! Laws of what is set up: each thing keeps what it was given, under its own name, and failures are told with
//! what they were about.

use crate::app::BootstrapError;
use crate::elevate::RelaunchError;
use crate::json::signed_decimal;
use crate::onvif_responses::OnvifConfig;
use crate::protect_controller::{AdoptionState, AvClientError, AvClientSession, FrameDirection, FrameTrace};
use crate::rtp::{rtp_header, RtpPacketizer, RtpSessionConfig};
use crate::text::contains_text;
use crate::text_laws::{lemma_contains_itself, lemma_contains_sum};
use crate::ws::{ws_error_text, WsFrame};
use vstd::prelude::*;

verus! {

/// A session begins with nothing done, and answers as the device that it was made for.
pub proof fn law_session_begins_with_nothing_done(
    device_id: String,
    start: u64,
    r: AvClientSession,
    ready: bool,
    sent: bool,
)
    requires
        call_ensures(AvClientSession::with_start, (device_id, start), r),
        call_ensures(AvClientSession::is_ready, (&r,), ready),
        call_ensures(AvClientSession::change_video_settings_sent, (&r,), sent),
    ensures
        !ready && !sent,
        r@.device_id == device_id@ && r@.next_message_id == start,
        !r@.hello_received,
        r@.stream_destination is None && r@.stream_name is None,
        r@.adoption_state == AdoptionState::NotConfigured,
        r@.controller_name == "UniFi Protect"@,
        r@.controller_uuid == "716dd84e-a640-45d7-9c17-2b9b4b8a7000"@,
        r@.controller_version == "7.1.77"@,
{
}

/// A session keeps who the controller is and where the stream goes, each under its own name; the second makes
/// it wait for the camera's greeting, and neither changes the rest.
pub proof fn law_session_keeps_what_it_is_given(
    s: AvClientSession,
    name: String,
    uuid: String,
    version: String,
    destination: String,
    stream: Option<String>,
    named: AvClientSession,
    sent: AvClientSession,
)
    requires
        call_ensures(AvClientSession::with_controller_identity, (s, name, uuid, version), named),
        call_ensures(AvClientSession::with_stream_destination, (named, destination, stream), sent),
    ensures
        sent@.controller_name == name@,
        sent@.controller_uuid == uuid@,
        sent@.controller_version == version@,
        sent@.stream_destination == Some(destination@),
        stream matches Some(n) ==> sent@.stream_name == Some(n@),
        stream is None ==> sent@.stream_name is None,
        named@.adoption_state == s@.adoption_state,
        sent@.adoption_state == AdoptionState::WaitingForHello,
        sent@.device_id == s@.device_id && sent@.next_message_id == s@.next_message_id && sent@.ready == s@.ready
            && sent@.hello_received == s@.hello_received,
{
}

/// A trace shows a frame as it went.
pub proof fn law_trace_shows_the_frame(direction: FrameDirection, frame: &WsFrame, r: FrameTrace)
    requires
        call_ensures(FrameTrace::new, (direction, frame), r),
    ensures
        r@.direction == direction && r@.opcode == frame.opcode && r@.payload == frame.payload@,
{
}

/// A packetizer starts where its seeds say; without an offset its clock starts at zero.
pub proof fn law_packetizer_starts_where_it_is_told(
    config: RtpSessionConfig,
    ssrc: u32,
    seq: u16,
    r: RtpPacketizer,
    plain: RtpPacketizer,
)
    requires
        call_ensures(RtpPacketizer::with_config, (config,), r),
        call_ensures(RtpPacketizer::new, (ssrc, seq), plain),
    ensures
        r@.ssrc == config.ssrc && r@.seq == config.start_seq && r@.start_ts_offset == config.start_ts_offset,
        plain@.ssrc == ssrc && plain@.seq == seq && plain@.start_ts_offset == 0,
        r@.payload_type == 96 && plain@.payload_type == 96,
{
}

/// A header holds its numbers, most significant byte first.
pub proof fn law_header_holds_its_numbers(
    marker: bool,
    payload_type: u8,
    seq: u16,
    timestamp: u32,
    ssrc: u32,
    r: [u8; 12],
)
    requires
        payload_type < 128,
        call_ensures(rtp_header, (marker, payload_type, seq, timestamp, ssrc), r),
    ensures
        r@.len() == 12,
        r@[0] == 0x80,
        r@[1] == payload_type + (if marker {
            128int
        } else {
            0
        }),
        r@[2] * 256 + r@[3] == seq,
        ((r@[4] * 256 + r@[5]) * 256 + r@[6]) * 256 + r@[7] == timestamp,
        ((r@[8] * 256 + r@[9]) * 256 + r@[10]) * 256 + r@[11] == ssrc,
{
    lemma_four_bytes(timestamp as int);
    lemma_four_bytes(ssrc as int);
}

proof fn lemma_four_bytes(n: int)
    requires
        0 <= n < 0x1_0000_0000,
    ensures
        ((n / 0x100_0000 * 256 + n / 0x1_0000 % 0x100) * 256 + n / 0x100 % 0x100) * 256 + n % 0x100 == n,
        0 <= n / 0x100_0000 < 256,
{
}

/// A device's configuration keeps its address and its two ports apart.
pub proof fn law_device_has_its_ports(server_ip: String, rtsp_port: u16, onvif_port: u16, r: OnvifConfig)
    requires
        call_ensures(OnvifConfig::defaults_for, (server_ip, rtsp_port, onvif_port), r),
    ensures
        r@.server_ip == server_ip@ && r@.rtsp_port == rtsp_port && r@.onvif_port == onvif_port,
        r@.device_service_path == "/onvif/device_service"@,
        r@.media_service_path == "/onvif/media_service"@,
        r@.firmware == "4.73.112"@ && r@.serial == "000000000000"@,
{
}

/// What keeps the program from starting is told with the file that it is about and the reason.
pub proof fn law_failed_start_is_told(e: BootstrapError, r: String)
    requires
        call_ensures(BootstrapError::message, (&e,), r),
    ensures
        match e {
            BootstrapError::LoggerOpen { path, source } => contains_text(r@, "log "@ + path@ + ": "@ + source@),
            BootstrapError::CertRead { path, source } => contains_text(r@, "cert "@ + path@ + ": "@ + source@),
            BootstrapError::CertLoad { path, source } => contains_text(r@, path@ + ": "@ + source@),
        },
{
    match e {
        BootstrapError::LoggerOpen { path, source } => {
            reveal_strlit("cannot open log ");
            reveal_strlit("cannot open ");
            reveal_strlit("log ");
            let word = "log "@ + path@ + ": "@ + source@;
            lemma_contains_itself(word);
            lemma_contains_sum("cannot open "@, word, word);
            assert(r@ =~= "cannot open "@ + word);
        },
        BootstrapError::CertRead { path, source } => {
            reveal_strlit("cannot read cert ");
            reveal_strlit("cannot read ");
            reveal_strlit("cert ");
            let word = "cert "@ + path@ + ": "@ + source@;
            lemma_contains_itself(word);
            lemma_contains_sum("cannot read "@, word, word);
            let tail = r@.skip(("cannot read "@ + word).len() as int);
            lemma_contains_sum("cannot read "@ + word, tail, word);
            assert(r@ =~= "cannot read "@ + word + tail);
        },
        BootstrapError::CertLoad { path, source } => {
            let word = path@ + ": "@ + source@;
            lemma_contains_itself(word);
            lemma_contains_sum("failed to load TLS cert from "@, word, word);
            assert(r@ =~= "failed to load TLS cert from "@ + word);
        },
    }
}

/// What ends a session is told with the error of the connection; a refused elevation with the system's code.
pub proof fn law_other_failures_are_told(e: AvClientError, r: String, f: RelaunchError, s: String)
    requires
        call_ensures(AvClientError::message, (&e,), r),
        call_ensures(RelaunchError::message, (&f,), s),
    ensures
        e matches AvClientError::Ws(w) ==> contains_text(r@, ws_error_text(w)),
        f matches RelaunchError::Declined(code) ==> contains_text(s@, signed_decimal(code as int)),
{
    if let AvClientError::Ws(w) = e {
        lemma_contains_itself(ws_error_text(w));
        lemma_contains_sum("WebSocket error in AVClient session: "@, ws_error_text(w), ws_error_text(w));
    }
    if let RelaunchError::Declined(code) = f {
        let d = signed_decimal(code as int);
        let front = "elevation declined or launch failed (ShellExecuteW returned "@;
        lemma_contains_itself(d);
        lemma_contains_sum(front, d, d);
        lemma_contains_sum(front + d, "); run as administrator"@, d);
        reveal_strlit("-");
        assert("-"@ =~= seq!['-']);
    }
}

} // verus!
