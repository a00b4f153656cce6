//! Laws of the small decisions: what each one gives for every input, and how two of them relate.

use crate::app::{cert_step, discovery_plan, ipv4_of, octet, usable_password, CertAction, CertEvent, CertStage, DiscoveryPlan};
use crate::cert_gen::{generate_self_signed_pfx, validity_end, Archive, CertGenError, CertTime};
use crate::cli::{dispatch_for, DispatchView};
use crate::config::Config;
use crate::elevate::{is_elevated, relaunch_elevated, RelaunchError, TokenQuery};
use crate::logging::{log_line, needs_rotation, Level};
use crate::calendar::{clock_text, date_text, day_number, is_date};
use crate::rtsp_protocol::RtspSessions;
use crate::rtsp_pump::{interleaved, needs_pacing, total_bytes};
use crate::rtsp_server::{admits, is_worth_a_warning, reap_if_idle, rtp_port};
use crate::server_stops::{join_step, JoinStep};
use crate::service::{
    actions_after, install, on_control, phase_after, run_as_service, start_outcome, stop_failed, stop_wait_step,
    uninstall, ControlReaction, InstallOutcome, Phase, ServiceAction, ServiceStatus, StartOutcome, StopWait,
    UninstallOutcome,
};
use crate::stream_state::Frame;
use crate::text::{decimal, law_decimal_reads_back, pieces};
use crate::text_laws::{lacks, lemma_first_piece, lemma_numeral, lemma_one_piece};
use crate::ws::{on_stall, StallAction};
use vstd::prelude::*;

verus! {

/// A log is rotated once it is longer than it may be, not before; a log that is due stays due, whatever
/// is added to it.
pub proof fn law_full_log_is_rotated(len: u64, more: u64, max_bytes: u64, r: bool, later: bool)
    requires
        call_ensures(needs_rotation, (len, max_bytes), r),
        call_ensures(needs_rotation, (more, max_bytes), later),
        len <= more,
    ensures
        len == max_bytes ==> !r,
        len == max_bytes + 1 ==> r,
        r ==> later,
        !later ==> !r,
{
}

/// A line of the log begins with the moment's date and time of day and the level's name, and ends with
/// the message as it is.
pub proof fn law_log_line(
    level: Level,
    msg: Seq<char>,
    year: int,
    month: int,
    day: int,
    secs: int,
    nanos: int,
)
    requires
        is_date(year, month, day),
        0 <= secs < 86_400,
        0 <= nanos < 1_000_000_000,
    ensures
        log_line(level, msg, day_number(year, month, day) * 86_400 + secs, nanos) == date_text(
            day_number(year, month, day),
        ) + " "@ + clock_text(secs * 1000 + nanos / 1_000_000) + " ["@ + (match level {
            Level::Info => "INFO"@,
            Level::Warn => "WARN"@,
            Level::Error => "ERROR"@,
        }) + "] "@ + msg,
{
    let t = day_number(year, month, day) * 86_400 + secs;
    assert(t / 86_400 == day_number(year, month, day) && t % 86_400 == secs);
}

/// At most 32 clients are served at a time.
pub proof fn law_limit_on_clients(active: usize, r: bool)
    requires
        call_ensures(admits, (active,), r),
    ensures
        r <==> active < 32,
{
}

/// A connection is closed after a minute of silence, unless one of its sessions plays.
pub proof fn law_silent_connections_are_closed(sessions: RtspSessions, silent_secs: u64, r: bool)
    requires
        call_ensures(reap_if_idle, (&sessions, silent_secs), r),
    ensures
        (exists|i: int| 0 <= i < sessions@.sessions.len() && (#[trigger] sessions@.sessions[i]).playing) ==> !r,
        (forall|i: int| 0 <= i < sessions@.sessions.len() ==> !(#[trigger] sessions@.sessions[i]).playing) ==> (r
            <==> silent_secs >= 60),
{
}

/// Of the answers, 461 and 503 are worth a warning.
pub proof fn law_warnings(status: u16, r: bool)
    requires
        call_ensures(is_worth_a_warning, (status,), r),
    ensures
        r <==> status == 461 || status == 503,
{
}

/// Frames are sent from an even port from 50000 up to 59998, and numbers that follow each other take
/// turns: two numbers share a port, the next two have the port two above, and after 10000 numbers it
/// begins anew.
pub proof fn law_ports_take_turns(a: u16, b: u16, p: u16, q: u16)
    requires
        call_ensures(rtp_port, (a,), p),
        call_ensures(rtp_port, (b,), q),
    ensures
        50_000 <= p <= 59_998,
        p % 2 == 0,
        a % 2 == 0 && b == a + 1 ==> p == q,
        a % 2 == 0 && b == a + 2 && p < 59_998 ==> q == p + 2,
        a % 2 == 0 && b == a + 2 && p == 59_998 ==> q == 50_000,
        a == 0 ==> p == 50_000,
{
}

/// A packet on the RTSP connection stands behind a dollar sign, its channel, and its length in two
/// bytes.
pub proof fn law_interleaved_packet(channel: u8, packet: Seq<u8>)
    requires
        packet.len() <= 0xFFFF,
    ensures
        ({
            let f = interleaved(channel, packet);
            &&& f.len() == packet.len() + 4
            &&& f[0] == '$' as u8
            &&& f[1] == channel
            &&& 256 * f[2] + f[3] == packet.len()
            &&& f.skip(4) == packet
        }),
{
    assert(interleaved(channel, packet).skip(4) =~= packet);
}

/// A frame is sent with pauses iff it has more than 65536 bytes: one unit of that many has none, one of
/// more has some.
pub proof fn law_large_frames_are_paced(frame: Frame, r: bool)
    requires
        call_ensures(needs_pacing, (&frame,), r),
        frame@.nalus.len() == 1,
    ensures
        r <==> frame@.nalus[0].len() > 65_536,
{
    let one = frame@.nalus;
    reveal_with_fuel(total_bytes, 3);
    assert(one.drop_last() =~= Seq::<Seq<u8>>::empty());
}

/// The command line's first word decides how the program runs; without one it runs in the console.
pub proof fn law_first_word_decides(args: Seq<String>, word: Seq<char>)
    ensures
        args.len() == 0 ==> dispatch_for(args) == DispatchView::Console,
        args.len() > 0 && args[0]@ == "--service"@ ==> dispatch_for(args) == DispatchView::Service,
        args.len() > 0 && args[0]@ == "--install"@ ==> dispatch_for(args) == DispatchView::Install,
        args.len() > 0 && args[0]@ == "--uninstall"@ ==> dispatch_for(args) == DispatchView::Uninstall,
        args.len() > 0 && args[0]@ == word && word != "--service"@ && word != "--install"@ && word != "--uninstall"@
            ==> dispatch_for(args) == DispatchView::Unknown(word),
{
    reveal_strlit("--service");
    reveal_strlit("--install");
    reveal_strlit("--uninstall");
    assert("--service"@.len() == 9 && "--install"@.len() == 9 && "--uninstall"@.len() == 11);
    assert("--service"@[2] == 's' && "--install"@[2] == 'i');
}

/// An IPv4 address is read from its four numbers, with dots between them.
pub proof fn law_ipv4_is_read(a: u8, b: u8, c: u8, d: u8)
    ensures
        ({
            let dot = seq!['.'];
            let text = decimal(a as nat) + dot + (decimal(b as nat) + dot + (decimal(c as nat) + dot + decimal(d as nat)));
            ipv4_of(text) matches Some(ip) && ip@ == seq![a, b, c, d]
        }),
{
    let dot = seq!['.'];
    let t3 = decimal(c as nat) + dot + decimal(d as nat);
    let t2 = decimal(b as nat) + dot + t3;
    lemma_octet(a);
    lemma_octet(b);
    lemma_octet(c);
    lemma_octet(d);
    lemma_first_piece(decimal(a as nat), '.', t2);
    lemma_first_piece(decimal(b as nat), '.', t3);
    lemma_first_piece(decimal(c as nat), '.', decimal(d as nat));
    lemma_one_piece(decimal(d as nat), '.');
    let parts = pieces(decimal(a as nat) + dot + t2, dot);
    assert(parts =~= seq![decimal(a as nat), decimal(b as nat), decimal(c as nat), decimal(d as nat)]);
    assert([a, b, c, d]@ =~= seq![a, b, c, d]);
}

proof fn lemma_octet(n: u8)
    ensures
        octet(decimal(n as nat)) == Some(n),
        lacks(decimal(n as nat), '.'),
{
    law_decimal_reads_back(n as nat);
    lemma_numeral(n as nat, 255, '.');
    reveal_with_fuel(decimal, 4);
}

/// Discovery is announced iff it is enabled and the web services have a port, under the address of the
/// device service at that port.
pub proof fn law_discovery_is_announced(enabled: bool, bound_port: Option<u16>, server_ip: &str, r: DiscoveryPlan)
    requires
        call_ensures(discovery_plan, (enabled, bound_port, server_ip), r),
    ensures
        !enabled ==> r is Disabled,
        enabled && bound_port is None ==> r is NoPort,
        enabled && bound_port is Some ==> (r matches DiscoveryPlan::Announce { xaddr, iface } && xaddr@ == "http://"@
            + server_ip@ + ":"@ + decimal(bound_port->0 as nat) + "/onvif/device_service"@ && iface == ipv4_of(
            server_ip@,
        )),
{
}

/// The address that is told is the configured one, else the one that was found, else the loopback.
pub proof fn law_advertised_address(c: Config, detected: Option<&str>, r: String)
    requires
        call_ensures(Config::advertised_server_ip, (&c, detected), r),
    ensures
        c@.server_ip matches Some(ip) ==> r@ == ip,
        c@.server_ip is None && detected is Some ==> r@ == detected->0@,
        c@.server_ip is None && detected is None ==> r@ == "127.0.0.1"@,
{
}

/// A certificate is used as it is read; a missing one is made once, where it may be written, and read
/// again; a second failure is final.
pub proof fn law_certificate_is_made_once(event: CertEvent, r: CertAction, s: CertAction, t: CertAction)
    requires
        call_ensures(cert_step, (CertStage::Reading, event), r),
        call_ensures(cert_step, (CertStage::Generating, event), s),
        call_ensures(cert_step, (CertStage::Rereading, event), t),
    ensures
        event == CertEvent::Done ==> r == CertAction::Use && s == CertAction::ReadAgain && t == CertAction::Use,
        r == CertAction::Generate <==> event == (CertEvent::Missing { writable: true }),
        s != CertAction::Generate && t != CertAction::Generate,
        event != CertEvent::Done ==> s == CertAction::Fail && t == CertAction::Fail,
        event == CertEvent::Failed || event == (CertEvent::Missing { writable: false }) ==> r == CertAction::Fail,
{
}

/// An empty password is none.
pub proof fn law_empty_password_is_none(password: Option<String>, r: Option<String>)
    requires
        call_ensures(usable_password, (password,), r),
    ensures
        r is Some <==> password is Some && password->0@.len() > 0,
        r matches Some(p) ==> p@ == password->0@,
{
}

/// A certificate is good for ten years to the day, or to the 28th, so that the day exists in its last
/// year; every other part of the time stays.
pub proof fn law_certificates_last_ten_years(start: CertTime, r: CertTime)
    requires
        call_ensures(validity_end, (start,), r),
    ensures
        start.year <= 65_525 ==> r.year == start.year + 10,
        start.day <= 28 ==> r.day == start.day,
        start.day > 28 ==> r.day == 28,
        r.month == start.month,
        r.hour == start.hour && r.minute == start.minute && r.second == start.second,
        r.milliseconds == start.milliseconds,
{
}

/// An archive is good iff it has bytes, a certificate and its private key; the first of these that is
/// missing is told.
pub proof fn law_archives_are_checked(a: Archive, r: Result<(), CertGenError>)
    requires
        call_ensures(generate_self_signed_pfx, (Some(Ok::<Archive, CertGenError>(a)),), r),
    ensures
        r is Ok <==> a.bytes > 0 && a.has_certificate && a.has_private_key,
        a.bytes == 0 ==> r matches Err(CertGenError::Empty),
        a.bytes > 0 && !a.has_certificate ==> r matches Err(CertGenError::NoCertificate),
        a.bytes > 0 && a.has_certificate && !a.has_private_key ==> r matches Err(CertGenError::NoPrivateKey),
{
}

/// A process is elevated where nothing can be asked, or where its token could be opened and read and
/// says so. A relaunch succeeded iff its code is above 32.
pub proof fn law_elevation(query: Option<TokenQuery>, r: bool, code: i64, s: Result<(), RelaunchError>)
    requires
        call_ensures(is_elevated, (query,), r),
        call_ensures(relaunch_elevated, (Some(code),), s),
    ensures
        query is None ==> r,
        query matches Some(q) ==> (r <==> q.opened && q.answered && q.elevation != 0),
        s is Ok <==> code > 32,
        s matches Err(e) ==> e == RelaunchError::Declined(code),
{
}

/// A wait for an end goes on while there is time; what has ended is reaped, whenever that is seen.
pub proof fn law_waits_end(finished: bool, waited_ms: u64, timeout_ms: u64, r: JoinStep)
    requires
        call_ensures(join_step, (finished, waited_ms, timeout_ms), r),
    ensures
        finished <==> r == JoinStep::Reap,
        !finished && waited_ms >= timeout_ms ==> r == JoinStep::Detach,
        !finished && waited_ms < timeout_ms ==> r == JoinStep::Wait,
{
}

/// A stalled read ends with the program, then with its deadline, and is else tried again.
pub proof fn law_stalled_reads(shutdown: bool, deadline_passed: bool, r: StallAction)
    requires
        call_ensures(on_stall, (shutdown, deadline_passed), r),
    ensures
        r is Shutdown <==> shutdown,
        r is TimedOut <==> !shutdown && deadline_passed,
        r is Retry <==> !shutdown && !deadline_passed,
{
}

/// The service manager's controls: 1 stops the service, 4 has it report its state, with success and the
/// control that it accepts, which is to be stopped while it runs; any other is ignored.
pub proof fn law_controls(control: u32, current_state: u32, r: ControlReaction)
    requires
        call_ensures(on_control, (control, current_state), r),
    ensures
        control == 1 ==> r is SignalStop,
        control == 4 ==> (r matches ControlReaction::Report(s) && s.current_state == current_state
            && s.win32_exit_code == 0 && s.controls_accepted == (if current_state == 4 { 1u32 } else { 0u32 })),
        control != 1 && control != 4 ==> r is Ignore,
{
}

/// How a run as a service, an installation and a removal end the program: 0 where it went well, 2 where
/// it is another system than Windows, else 1.
pub proof fn law_exit_codes(
    dispatched: Option<bool>,
    installed: Option<InstallOutcome>,
    removed: Option<UninstallOutcome>,
    r: i32,
    s: i32,
    t: i32,
)
    requires
        call_ensures(run_as_service, (dispatched,), r),
        call_ensures(install, (installed,), s),
        call_ensures(uninstall, (removed,), t),
    ensures
        r == (if dispatched is None { 2int } else if dispatched->0 { 0 } else { 1 }),
        s == (if installed is None { 2int } else if installed->0 is Registered { 0 } else { 1 }),
        t == (if removed is None { 2int } else if removed->0 is Deleted { 0 } else { 1 }),
{
}

/// A service that runs already counts as started, and one that is not active as stopped: codes 1056 and
/// 1062. A stop is waited for up to six seconds.
pub proof fn law_starts_and_stops(
    started: bool,
    code: Option<i32>,
    r: StartOutcome,
    failed: bool,
    answered: bool,
    state: u32,
    waited_ms: u64,
    w: StopWait,
)
    requires
        call_ensures(start_outcome, (started, code), r),
        call_ensures(stop_failed, (code,), failed),
        call_ensures(stop_wait_step, (answered, state, waited_ms), w),
    ensures
        started ==> r is Started,
        !started && code == Some(1056i32) ==> r is AlreadyRunning,
        !started && code != Some(1056i32) ==> r is Failed,
        failed <==> code != Some(1062i32),
        w is Done <==> answered && state == 1,
        !(w is Done) ==> (w is GiveUp <==> waited_ms >= 6000),
{
}

/// A service that starts well goes through every phase in order, and says that it is running, and that
/// it can be stopped, once its servers have been started and not before.
pub proof fn law_service_runs_in_order()
    ensures
        ({
            let p1 = phase_after(Phase::Registering, true);
            let p2 = phase_after(p1, true);
            let p3 = phase_after(p2, true);
            let p4 = phase_after(p3, true);
            let p5 = phase_after(p4, true);
            &&& p1 is CreatingEvent && p2 is StartPending && p3 is Bootstrapping && p4 is Starting && p5 is Running
            &&& actions_after(Phase::Registering, true) == seq![ServiceAction::CreateStopEvent]
            &&& actions_after(p2, true) == seq![ServiceAction::Bootstrap]
            &&& actions_after(p3, true)[0] == ServiceAction::Spawn
            &&& actions_after(p3, true).last() matches ServiceAction::Report(s) && s.current_state == 4
                && s.controls_accepted == 1 && s.win32_exit_code == 0
            &&& actions_after(p4, true) == seq![ServiceAction::WaitForStop]
        }),
{
}

/// What a failed start tells: 1066 as the code, and 1 as the service's own; an orderly end tells 0.
pub proof fn law_failures_are_told(s: ServiceStatus)
    ensures
        actions_after(Phase::CreatingEvent, false) == seq![ServiceAction::Report(s)] ==> s.current_state == 1
            && s.win32_exit_code == 1066 && s.service_specific_exit_code == 1,
        actions_after(Phase::Bootstrapping, false)[0] == ServiceAction::Report(s) ==> s.current_state == 1
            && s.win32_exit_code == 1066 && s.service_specific_exit_code == 1,
        actions_after(Phase::Running, true)[4] == ServiceAction::Report(s) ==> s.current_state == 1
            && s.win32_exit_code == 0,
        actions_after(Phase::Running, true)[1] == ServiceAction::Report(s) ==> s.current_state == 3
            && s.controls_accepted == 0,
{
    let a = actions_after(Phase::CreatingEvent, false);
    assert(a[0] is Report);
    if a == seq![ServiceAction::Report(s)] {
        assert(seq![ServiceAction::Report(s)][0] == ServiceAction::Report(s));
    }
}

} // verus!
