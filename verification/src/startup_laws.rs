//! Laws of what the program says of itself: when it starts, to the service manager, and where nothing is set.

use crate::app::startup_lines;
use crate::cli::{dispatch_for, DispatchView};
use crate::config::{device_defaults, entries_in, last_value, Config, DeviceDefaults, Pair};
use crate::logging::{backup_name, backup_path, dir_of, is_plain_path, last_name};
use crate::service::{
    actions_after, report_status, report_stopped_error, service_account, service_command, service_name_wide, Phase,
    ServiceAction, ServiceStatus,
};
use crate::text::{contains_text, decimal};
use crate::text_laws::{lemma_contains_itself, lemma_contains_sum};
use crate::wide::utf16;
use vstd::prelude::*;

verus! {

proof fn lemma_between(a: Seq<char>, word: Seq<char>, b: Seq<char>)
    ensures
        contains_text(a + word + b, word),
        contains_text(a + word, word),
{
    lemma_contains_itself(word);
    lemma_contains_sum(a, word, word);
    lemma_contains_sum(a + word, b, word);
}

/// What is said at the start names each port that is listened on, with the address that is announced; on
/// Windows the camera's ports are fixed.
pub proof fn law_start_names_the_ports(
    on_windows: bool,
    listen_port: u16,
    server_ip: &str,
    rtsp_port: u16,
    bound_port: Option<u16>,
    discovery: bool,
    r: Vec<String>,
)
    requires
        call_ensures(startup_lines, (on_windows, listen_port, server_ip, rtsp_port, bound_port, discovery), r),
    ensures
        r@.len() == 5,
        !on_windows ==> contains_text(r@[0]@, "camera=:"@ + decimal(listen_port as nat)),
        on_windows ==> contains_text(r@[0]@, "7550=upflv"@) && contains_text(r@[0]@, "7442=avclient"@),
        contains_text(r@[1]@, "rtsp://"@ + server_ip@ + ":"@ + decimal(rtsp_port as nat) + "/stream"@),
        bound_port matches Some(port) ==> contains_text(
            r@[2]@,
            "http://"@ + server_ip@ + ":"@ + decimal(port as nat) + "/onvif/device_service"@,
        ),
        bound_port is None ==> contains_text(r@[2]@, "disabled"@),
        contains_text(r@[3]@, if discovery {
            "=on"@
        } else {
            "=off"@
        }),
        r@[4]@ == "advertised ip="@ + server_ip@,
{
    let lines = crate::app::line_views(r@);
    assert(lines.len() == 5);
    assert(r@[0]@ == lines[0] && r@[1]@ == lines[1] && r@[2]@ == lines[2] && r@[3]@ == lines[3] && r@[4]@ == lines[4]);
    lemma_camera_line(on_windows, listen_port);
    lemma_rtsp_line(server_ip@, rtsp_port);
    lemma_onvif_line(server_ip@, bound_port);
    lemma_discovery_line(discovery);
}

proof fn lemma_camera_line(on_windows: bool, listen_port: u16)
    ensures
        ({
            let line = crate::app::camera_line(on_windows, listen_port);
            &&& !on_windows ==> contains_text(line, "camera=:"@ + decimal(listen_port as nat))
            &&& on_windows ==> contains_text(line, "7550=upflv"@) && contains_text(line, "7442=avclient"@)
        }),
{
    if on_windows {
        reveal_strlit("listening camera: 7550=upflv + 7442=avclient");
        reveal_strlit("listening camera: ");
        reveal_strlit("7550=upflv");
        reveal_strlit(" + 7442=avclient");
        reveal_strlit("listening camera: 7550=upflv + ");
        reveal_strlit("7442=avclient");
        let line = "listening camera: 7550=upflv + 7442=avclient"@;
        lemma_between("listening camera: "@, "7550=upflv"@, " + 7442=avclient"@);
        lemma_between("listening camera: 7550=upflv + "@, "7442=avclient"@, ""@);
        assert(line =~= "listening camera: "@ + "7550=upflv"@ + " + 7442=avclient"@);
        assert(line =~= "listening camera: 7550=upflv + "@ + "7442=avclient"@);
    } else {
        reveal_strlit("listening camera=:");
        reveal_strlit("listening ");
        reveal_strlit("camera=:");
        let word = "camera=:"@ + decimal(listen_port as nat);
        lemma_between("listening "@, word, " (plain tcp)"@);
        assert("listening camera=:"@ + decimal(listen_port as nat) + " (plain tcp)"@ =~= "listening "@ + word
            + " (plain tcp)"@);
    }
}

proof fn lemma_rtsp_line(server_ip: Seq<char>, rtsp_port: u16)
    ensures
        contains_text(
            crate::app::rtsp_line(server_ip, rtsp_port),
            "rtsp://"@ + server_ip + ":"@ + decimal(rtsp_port as nat) + "/stream"@,
        ),
{
    reveal_strlit("listening rtsp=rtsp://");
    reveal_strlit("listening rtsp=");
    reveal_strlit("rtsp://");
    let word = "rtsp://"@ + server_ip + ":"@ + decimal(rtsp_port as nat) + "/stream"@;
    lemma_between("listening rtsp="@, word, Seq::empty());
    assert(crate::app::rtsp_line(server_ip, rtsp_port) =~= "listening rtsp="@ + word);
}

proof fn lemma_onvif_line(server_ip: Seq<char>, bound_port: Option<u16>)
    ensures
        bound_port matches Some(port) ==> contains_text(
            crate::app::onvif_line(server_ip, bound_port),
            "http://"@ + server_ip + ":"@ + decimal(port as nat) + "/onvif/device_service"@,
        ),
        bound_port is None ==> contains_text(crate::app::onvif_line(server_ip, bound_port), "disabled"@),
{
    match bound_port {
        Some(port) => {
            reveal_strlit("listening onvif=http://");
            reveal_strlit("listening onvif=");
            reveal_strlit("http://");
            reveal_strlit("/onvif/device_service (+ /onvif/media_service)");
            reveal_strlit("/onvif/device_service");
            reveal_strlit(" (+ /onvif/media_service)");
            let word = "http://"@ + server_ip + ":"@ + decimal(port as nat) + "/onvif/device_service"@;
            lemma_between("listening onvif="@, word, " (+ /onvif/media_service)"@);
            assert(crate::app::onvif_line(server_ip, bound_port) =~= "listening onvif="@ + word
                + " (+ /onvif/media_service)"@);
        },
        None => {
            reveal_strlit("listening onvif=disabled (bind failed)");
            reveal_strlit("listening onvif=");
            reveal_strlit("disabled");
            reveal_strlit(" (bind failed)");
            lemma_between("listening onvif="@, "disabled"@, " (bind failed)"@);
            assert("listening onvif=disabled (bind failed)"@ =~= "listening onvif="@ + "disabled"@ + " (bind failed)"@);
        },
    }
}

proof fn lemma_discovery_line(enabled: bool)
    ensures
        contains_text(crate::app::discovery_line(enabled), if enabled {
            "=on"@
        } else {
            "=off"@
        }),
{
    reveal_strlit("wsdiscovery=");
    reveal_strlit("wsdiscovery");
    reveal_strlit("on");
    reveal_strlit("off");
    reveal_strlit("=on");
    reveal_strlit("=off");
    let tail = " (udp 239.255.255.250:3702)"@;
    let word = if enabled {
        "=on"@
    } else {
        "=off"@
    };
    lemma_between("wsdiscovery"@, word, tail);
    assert(crate::app::discovery_line(enabled) =~= "wsdiscovery"@ + word + tail);
}

/// The command that the service manager starts is the program with an argument that makes it run as a
/// service; its account is named after it.
pub proof fn law_service_is_started_as_one(exe_path: &str, r: String, account: String, name: Vec<u16>, args: Seq<String>)
    requires
        call_ensures(service_command, (exe_path,), r),
        call_ensures(service_account, (), account),
        call_ensures(service_name_wide, (), name),
        args.len() == 1 && args[0]@ == r@.skip(0int + exe_path@.len() + 1),
    ensures
        r@.take(0int + exe_path@.len() + 1) == exe_path@.push(' '),
        dispatch_for(args) == DispatchView::Service,
        contains_text(account@, "flvproxy"@),
        name@ == utf16("flvproxy"@).push(0),
{
    reveal_strlit(" --service");
    reveal_strlit("--service");
    assert(r@.take(0int + exe_path@.len() + 1) =~= exe_path@.push(' '));
    assert(r@.skip(0int + exe_path@.len() + 1) =~= "--service"@);
    lemma_between("NT SERVICE\\"@, "flvproxy"@, Seq::empty());
}

/// What is reported is the state with its controls, its checkpoint and its hint, and no failure; a failure
/// is a stop with the service's own code.
pub proof fn law_reports_tell_what_is_given(
    state: u32,
    controls: u32,
    check_point: u32,
    wait_hint: u32,
    specific: u32,
    r: ServiceStatus,
    s: ServiceStatus,
)
    requires
        call_ensures(report_status, (state, controls, check_point, wait_hint), r),
        call_ensures(report_stopped_error, (specific,), s),
    ensures
        r.service_type == 16 && s.service_type == 16,
        r.current_state == state && r.controls_accepted == controls && r.check_point == check_point && r.wait_hint
            == wait_hint,
        r.win32_exit_code == 0 && r.service_specific_exit_code == 0,
        s.current_state == 1 && s.controls_accepted == 0 && s.check_point == 0 && s.wait_hint == 0,
        s.win32_exit_code == 1066 && s.service_specific_exit_code == specific,
{
}

/// A start and a stop that take their time say how long: three seconds and five.
pub proof fn law_pending_states_hint(s: ServiceStatus)
    ensures
        actions_after(Phase::CreatingEvent, true) == seq![ServiceAction::Report(s)] ==> s.current_state == 2
            && s.check_point == 1 && s.wait_hint == 3000,
        actions_after(Phase::Running, true)[1] == ServiceAction::Report(s) ==> s.current_state == 3 && s.check_point
            == 2 && s.wait_hint == 5000,
{
    assert(actions_after(Phase::CreatingEvent, true)[0] is Report);
    if actions_after(Phase::CreatingEvent, true) == seq![ServiceAction::Report(s)] {
        assert(actions_after(Phase::CreatingEvent, true)[0] == seq![ServiceAction::Report(s)][0]);
    }
}

/// Of the firmware and the serial number the last entry counts; where there is none, they have a value all
/// the same.
pub proof fn law_last_entry_counts(text: &str, r: DeviceDefaults, i: int)
    requires
        call_ensures(device_defaults, (text,), r),
    ensures
        ({
            let entries = entries_in(text@);
            &&& is_last(entries, "firmware"@, i) ==> r.firmware@ == entries[i].1
            &&& is_last(entries, "serial"@, i) ==> r.serial@ == entries[i].1
            &&& (forall|j: int| 0 <= j < entries.len() ==> (#[trigger] entries[j]).0 != "firmware"@) ==> r.firmware@
                == "4.73.112"@
            &&& (forall|j: int| 0 <= j < entries.len() ==> (#[trigger] entries[j]).0 != "serial"@) ==> r.serial@
                == "000000000000"@
        }),
{
    let entries = entries_in(text@);
    lemma_last(entries, "firmware"@, "4.73.112"@, i);
    lemma_last(entries, "serial"@, "000000000000"@, i);
}

/// Whether the `i`-th entry is the last with a key.
pub open spec fn is_last(entries: Seq<Pair>, key: Seq<char>, i: int) -> bool {
    0 <= i < entries.len() && entries[i].0 == key && forall|j: int|
        i < j < entries.len() ==> (#[trigger] entries[j]).0 != key
}

proof fn lemma_last(entries: Seq<Pair>, key: Seq<char>, otherwise: Seq<char>, i: int)
    ensures
        is_last(entries, key, i) ==> last_value(entries, key, otherwise) == entries[i].1,
        (forall|j: int| 0 <= j < entries.len() ==> (#[trigger] entries[j]).0 != key) ==> last_value(
            entries,
            key,
            otherwise,
        ) == otherwise,
    decreases entries.len(),
{
    if entries.len() > 0 && entries.last().0 != key {
        let head = entries.drop_last();
        lemma_last(head, key, otherwise, i);
        assert(forall|j: int| 0 <= j < head.len() ==> (#[trigger] head[j]) == entries[j]);
        if is_last(entries, key, i) {
            assert(head[i] == entries[i]);
            assert(is_last(head, key, i));
        }
    } else if entries.len() > 0 {
        assert(entries[entries.len() - 1].0 == key);
    }
}

/// A full log is moved to another name that begins with its own, in the directory where it is.
pub proof fn law_full_log_stays_where_it_is(name: &str, path: &str, moved: String, r: String)
    requires
        call_ensures(backup_name, (name,), moved),
        call_ensures(backup_path, (path,), r),
    ensures
        moved@.len() == name@.len() + 2,
        moved@.take(0int + name@.len()) == name@,
        moved@.skip(0int + name@.len()) == ".1"@,
        is_plain_path(path@) ==> contains_text(r@, last_name(path@) + ".1"@),
        is_plain_path(path@) && dir_of(path@) is Some ==> r@.take(0int + dir_of(path@)->0.len()) == dir_of(path@)->0,
{
    reveal_strlit(".1");
    assert(moved@.take(0int + name@.len()) =~= name@);
    assert(moved@.skip(0int + name@.len()) =~= ".1"@);
    let word = last_name(path@) + ".1"@;
    lemma_contains_itself(word);
    if is_plain_path(path@) {
        if let Some(dir) = dir_of(path@) {
            lemma_contains_sum(dir.push('/'), word, word);
            lemma_contains_sum(dir.push('\\'), word, word);
            assert(r@.take(0int + dir.len()) =~= dir);
        }
    }
}

/// What is not configured has its default.
pub proof fn law_defaults(r: Config)
    requires
        call_ensures(Config::load_or_default, (None::<&str>,), r),
    ensures
        r@.listen_port == 7550 && r@.rtsp_port == 8554 && r@.onvif_port == 8080,
        r@.onvif_discovery,
        r@.server_ip is None && r@.cert_path is None && r@.cert_password is None,
        r@.controller_name == "UniFi Protect"@,
        r@.controller_version == "7.1.77"@,
{
}

} // verus!
