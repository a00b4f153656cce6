//! The Windows service: what it is called, how it runs under the service manager, and how it ends.

use crate::cli::{EXIT_FAILURE, EXIT_OK, EXIT_WINDOWS_ONLY};
use crate::wide::{to_wide, utf16};
use vstd::prelude::*;

verus! {

/// Name of the service.
pub const SERVICE_NAME: &'static str = "flvproxy";

/// Name of the service as it is shown.
pub const SERVICE_DISPLAY_NAME: &'static str = "UniFi FLV Proxy";

/// What the service is, as it is shown.
pub const SERVICE_DESCRIPTION: &'static str = "UniFi Camera FLV-to-RTSP/ONVIF proxy";

/// The service has a process of its own.
pub const SERVICE_WIN32_OWN_PROCESS: u32 = 0x10;

pub const SERVICE_CONTROL_STOP: u32 = 1;

pub const SERVICE_CONTROL_INTERROGATE: u32 = 4;

/// The service can be stopped.
pub const SERVICE_ACCEPT_STOP: u32 = 1;

pub const SERVICE_STOPPED: u32 = 1;

pub const SERVICE_START_PENDING: u32 = 2;

pub const SERVICE_STOP_PENDING: u32 = 3;

pub const SERVICE_RUNNING: u32 = 4;

pub const ERROR_SUCCESS: u32 = 0;

/// The service has an error code of its own.
pub const ERROR_SERVICE_SPECIFIC_ERROR: u32 = 1066;

/// What is to be stopped does not run.
pub const ERROR_SERVICE_NOT_ACTIVE: i32 = 1062;

/// What is to be started runs already.
pub const ERROR_SERVICE_ALREADY_RUNNING: i32 = 1056;

/// The service's own error code where it could not start.
pub const SERVICE_SPECIFIC_BOOTSTRAP: u32 = 1;

pub const START_PENDING_CHECKPOINT: u32 = 1;

pub const STOP_PENDING_CHECKPOINT: u32 = 2;

pub const START_PENDING_WAIT_HINT_MS: u32 = 3000;

pub const STOP_PENDING_WAIT_HINT_MS: u32 = 5000;

/// The account of the service.
pub open spec fn account_text() -> Seq<char> {
    "NT SERVICE\\"@ + SERVICE_NAME@
}

/// The account that the service runs under: a virtual one of its own.
pub fn service_account() -> (r: String)
    ensures
        r@ == account_text(),
{
    let mut out = "NT SERVICE\\".to_owned();
    out.append(SERVICE_NAME);
    out
}

/// The name of the service as the system wants it.
pub fn service_name_wide() -> (r: Vec<u16>)
    ensures
        r@ == utf16(SERVICE_NAME@).push(0),
{
    to_wide(SERVICE_NAME)
}

/// The command that the service manager starts.
pub fn service_command(exe_path: &str) -> (r: String)
    ensures
        r@ == exe_path@ + " --service"@,
{
    let mut out = exe_path.to_owned();
    out.append(" --service");
    out
}

/// What the service manager is told.
#[derive(Debug, Clone, Copy, PartialEq, Eq, Structural)]
pub struct ServiceStatus {
    pub service_type: u32,
    pub current_state: u32,
    pub controls_accepted: u32,
    pub win32_exit_code: u32,
    pub service_specific_exit_code: u32,
    pub check_point: u32,
    pub wait_hint: u32,
}

/// A state that is no failure.
pub open spec fn state_of(state: u32, controls: u32, check_point: u32, wait_hint: u32) -> ServiceStatus {
    ServiceStatus {
        service_type: SERVICE_WIN32_OWN_PROCESS,
        current_state: state,
        controls_accepted: controls,
        win32_exit_code: ERROR_SUCCESS,
        service_specific_exit_code: 0,
        check_point,
        wait_hint,
    }
}

/// The end after a failure.
pub open spec fn failure_of(specific: u32) -> ServiceStatus {
    ServiceStatus {
        service_type: SERVICE_WIN32_OWN_PROCESS,
        current_state: SERVICE_STOPPED,
        controls_accepted: 0,
        win32_exit_code: ERROR_SERVICE_SPECIFIC_ERROR,
        service_specific_exit_code: specific,
        check_point: 0,
        wait_hint: 0,
    }
}

/// Tells a state that is no failure.
pub fn report_status(state: u32, controls: u32, check_point: u32, wait_hint: u32) -> (r: ServiceStatus)
    ensures
        r == state_of(state, controls, check_point, wait_hint),
{
    ServiceStatus {
        service_type: SERVICE_WIN32_OWN_PROCESS,
        current_state: state,
        controls_accepted: controls,
        win32_exit_code: ERROR_SUCCESS,
        service_specific_exit_code: 0,
        check_point,
        wait_hint,
    }
}

/// Tells the end after a failure.
pub fn report_stopped_error(specific: u32) -> (r: ServiceStatus)
    ensures
        r == failure_of(specific),
{
    ServiceStatus {
        service_type: SERVICE_WIN32_OWN_PROCESS,
        current_state: SERVICE_STOPPED,
        controls_accepted: 0,
        win32_exit_code: ERROR_SERVICE_SPECIFIC_ERROR,
        service_specific_exit_code: specific,
        check_point: 0,
        wait_hint: 0,
    }
}

/// What to do on a message of the service manager.
#[derive(Debug, Clone, Copy, PartialEq, Eq, Structural)]
pub enum ControlReaction {
    /// Let the service end.
    SignalStop,
    /// Tell the state again.
    Report(ServiceStatus),
    Ignore,
}

/// Reacts to a message of the service manager.
pub fn on_control(control: u32, current_state: u32) -> (r: ControlReaction)
    ensures
        r == (if control == SERVICE_CONTROL_STOP {
            ControlReaction::SignalStop
        } else if control == SERVICE_CONTROL_INTERROGATE {
            ControlReaction::Report(
                state_of(
                    current_state,
                    if current_state == SERVICE_RUNNING {
                        SERVICE_ACCEPT_STOP
                    } else {
                        0
                    },
                    0,
                    0,
                ),
            )
        } else {
            ControlReaction::Ignore
        }),
{
    if control == SERVICE_CONTROL_STOP {
        ControlReaction::SignalStop
    } else if control == SERVICE_CONTROL_INTERROGATE {
        let controls: u32 = if current_state == SERVICE_RUNNING {
            SERVICE_ACCEPT_STOP
        } else {
            0
        };
        ControlReaction::Report(report_status(current_state, controls, 0, 0))
    } else {
        ControlReaction::Ignore
    }
}

/// Where the service is: what it waits for.
#[derive(Debug, Clone, Copy, PartialEq, Eq, Structural)]
pub enum Phase {
    /// The service manager's messages are being asked for.
    Registering,
    /// The event that ends the service is being made.
    CreatingEvent,
    /// The service manager is being told that the service starts.
    StartPending,
    /// The program is being set up.
    Bootstrapping,
    /// The service manager is being told that the service runs.
    Starting,
    /// The service runs.
    Running,
    Ended,
}

/// Something that the service does.
#[derive(Debug, Clone, Copy, PartialEq, Eq, Structural)]
pub enum ServiceAction {
    CreateStopEvent,
    CloseStopEvent,
    Report(ServiceStatus),
    Bootstrap,
    /// Start the servers.
    Spawn,
    LogStarted,
    LogReportFailed,
    LogStopping,
    LogStopped,
    WaitForStop,
    /// Stop the servers and wait for them.
    Shutdown,
}

/// Where the service is after something went well or not.
pub open spec fn phase_after(phase: Phase, ok: bool) -> Phase {
    match phase {
        Phase::Registering => if ok {
            Phase::CreatingEvent
        } else {
            Phase::Ended
        },
        Phase::CreatingEvent => if ok {
            Phase::StartPending
        } else {
            Phase::Ended
        },
        Phase::StartPending => if ok {
            Phase::Bootstrapping
        } else {
            Phase::Ended
        },
        Phase::Bootstrapping => if ok {
            Phase::Starting
        } else {
            Phase::Ended
        },
        Phase::Starting => if ok {
            Phase::Running
        } else {
            Phase::Ended
        },
        Phase::Running => Phase::Ended,
        Phase::Ended => Phase::Ended,
    }
}

/// What the service does after something went well or not.
pub open spec fn actions_after(phase: Phase, ok: bool) -> Seq<ServiceAction> {
    let stopped = ServiceAction::Report(state_of(SERVICE_STOPPED, 0, 0, 0));
    let failed = ServiceAction::Report(failure_of(SERVICE_SPECIFIC_BOOTSTRAP));
    match phase {
        Phase::Registering => if ok {
            seq![ServiceAction::CreateStopEvent]
        } else {
            seq![]
        },
        Phase::CreatingEvent => if ok {
            seq![
                ServiceAction::Report(
                    state_of(SERVICE_START_PENDING, 0, START_PENDING_CHECKPOINT, START_PENDING_WAIT_HINT_MS),
                ),
            ]
        } else {
            seq![failed]
        },
        Phase::StartPending => if ok {
            seq![ServiceAction::Bootstrap]
        } else {
            seq![ServiceAction::CloseStopEvent, stopped]
        },
        Phase::Bootstrapping => if ok {
            seq![
                ServiceAction::Spawn,
                ServiceAction::LogStarted,
                ServiceAction::Report(state_of(SERVICE_RUNNING, SERVICE_ACCEPT_STOP, 0, 0)),
            ]
        } else {
            seq![failed, ServiceAction::CloseStopEvent]
        },
        Phase::Starting => if ok {
            seq![ServiceAction::WaitForStop]
        } else {
            seq![
                ServiceAction::LogReportFailed,
                ServiceAction::Shutdown,
                stopped,
                ServiceAction::CloseStopEvent,
            ]
        },
        Phase::Running => seq![
            ServiceAction::LogStopping,
            ServiceAction::Report(
                state_of(SERVICE_STOP_PENDING, 0, STOP_PENDING_CHECKPOINT, STOP_PENDING_WAIT_HINT_MS),
            ),
            ServiceAction::Shutdown,
            ServiceAction::LogStopped,
            stopped,
            ServiceAction::CloseStopEvent,
        ],
        Phase::Ended => seq![],
    }
}

/// The service's run. It begins by asking for the service manager's messages; after that, each step
/// is told how the last thing that it asked for went.
pub struct ServiceRun {
    phase: Phase,
}

impl View for ServiceRun {
    type V = Phase;

    closed spec fn view(&self) -> Phase {
        self.phase
    }
}

impl ServiceRun {
    /// The begin of a run.
    pub fn new() -> (r: ServiceRun)
        ensures
            r@ == Phase::Registering,
    {
        ServiceRun { phase: Phase::Registering }
    }

    /// Whether the run has ended.
    pub fn is_ended(&self) -> (r: bool)
        ensures
            r == (self@ is Ended),
    {
        self.phase == Phase::Ended
    }

    /// Decides what to do next, in this order.
    pub fn step(&mut self, ok: bool) -> (r: Vec<ServiceAction>)
        ensures
            final(self)@ == phase_after(old(self)@, ok),
            r@ == actions_after(old(self)@, ok),
    {
        let stopped = ServiceAction::Report(report_status(SERVICE_STOPPED, 0, 0, 0));
        let failed = ServiceAction::Report(report_stopped_error(SERVICE_SPECIFIC_BOOTSTRAP));
        let mut out: Vec<ServiceAction> = Vec::new();
        let phase = self.phase;
        match phase {
            Phase::Registering => {
                if ok {
                    out.push(ServiceAction::CreateStopEvent);
                    self.phase = Phase::CreatingEvent;
                } else {
                    self.phase = Phase::Ended;
                }
            },
            Phase::CreatingEvent => {
                if ok {
                    out.push(
                        ServiceAction::Report(
                            report_status(
                                SERVICE_START_PENDING,
                                0,
                                START_PENDING_CHECKPOINT,
                                START_PENDING_WAIT_HINT_MS,
                            ),
                        ),
                    );
                    self.phase = Phase::StartPending;
                } else {
                    out.push(failed);
                    self.phase = Phase::Ended;
                }
            },
            Phase::StartPending => {
                if ok {
                    out.push(ServiceAction::Bootstrap);
                    self.phase = Phase::Bootstrapping;
                } else {
                    out.push(ServiceAction::CloseStopEvent);
                    out.push(stopped);
                    self.phase = Phase::Ended;
                }
            },
            Phase::Bootstrapping => {
                if ok {
                    out.push(ServiceAction::Spawn);
                    out.push(ServiceAction::LogStarted);
                    out.push(
                        ServiceAction::Report(report_status(SERVICE_RUNNING, SERVICE_ACCEPT_STOP, 0, 0)),
                    );
                    self.phase = Phase::Starting;
                } else {
                    out.push(failed);
                    out.push(ServiceAction::CloseStopEvent);
                    self.phase = Phase::Ended;
                }
            },
            Phase::Starting => {
                if ok {
                    out.push(ServiceAction::WaitForStop);
                    self.phase = Phase::Running;
                } else {
                    out.push(ServiceAction::LogReportFailed);
                    out.push(ServiceAction::Shutdown);
                    out.push(stopped);
                    out.push(ServiceAction::CloseStopEvent);
                    self.phase = Phase::Ended;
                }
            },
            Phase::Running => {
                out.push(ServiceAction::LogStopping);
                out.push(
                    ServiceAction::Report(
                        report_status(
                            SERVICE_STOP_PENDING,
                            0,
                            STOP_PENDING_CHECKPOINT,
                            STOP_PENDING_WAIT_HINT_MS,
                        ),
                    ),
                );
                out.push(ServiceAction::Shutdown);
                out.push(ServiceAction::LogStopped);
                out.push(stopped);
                out.push(ServiceAction::CloseStopEvent);
                self.phase = Phase::Ended;
            },
            Phase::Ended => {},
        }
        assert(out@ =~= actions_after(phase, ok));
        out
    }
}

/// Gives the exit code of the service: `dispatched` says whether the service manager took it, where
/// there is one.
pub fn run_as_service(dispatched: Option<bool>) -> (r: i32)
    ensures
        r == (match dispatched {
            None => EXIT_WINDOWS_ONLY,
            Some(true) => EXIT_OK,
            Some(false) => EXIT_FAILURE,
        }),
{
    match dispatched {
        None => EXIT_WINDOWS_ONLY,
        Some(true) => EXIT_OK,
        Some(false) => EXIT_FAILURE,
    }
}

/// How far a registration came.
#[derive(Debug, Clone, Copy, PartialEq, Eq, Structural)]
pub enum InstallOutcome {
    /// The service manager could not be reached.
    NoManager,
    /// The program does not know where it is.
    NoPath,
    /// The service manager refused.
    NotCreated,
    /// The service is registered, whether or not it could be started.
    Registered,
}

/// Gives the exit code of a registration.
pub fn install(outcome: Option<InstallOutcome>) -> (r: i32)
    ensures
        r == (match outcome {
            None => EXIT_WINDOWS_ONLY,
            Some(InstallOutcome::Registered) => EXIT_OK,
            Some(_) => EXIT_FAILURE,
        }),
{
    match outcome {
        None => EXIT_WINDOWS_ONLY,
        Some(InstallOutcome::Registered) => EXIT_OK,
        Some(_) => EXIT_FAILURE,
    }
}

/// How far a removal came.
#[derive(Debug, Clone, Copy, PartialEq, Eq, Structural)]
pub enum UninstallOutcome {
    /// The service manager could not be reached.
    NoManager,
    /// There is no such service.
    NoService,
    /// The service manager refused.
    NotDeleted,
    Deleted,
}

/// Gives the exit code of a removal.
pub fn uninstall(outcome: Option<UninstallOutcome>) -> (r: i32)
    ensures
        r == (match outcome {
            None => EXIT_WINDOWS_ONLY,
            Some(UninstallOutcome::Deleted) => EXIT_OK,
            Some(_) => EXIT_FAILURE,
        }),
{
    match outcome {
        None => EXIT_WINDOWS_ONLY,
        Some(UninstallOutcome::Deleted) => EXIT_OK,
        Some(_) => EXIT_FAILURE,
    }
}

/// How a start of the service went.
#[derive(Debug, Clone, Copy, PartialEq, Eq, Structural)]
pub enum StartOutcome {
    Started,
    /// It runs already, which is as good.
    AlreadyRunning,
    Failed,
}

/// Judges a start of the service by the system's error code.
pub fn start_outcome(started: bool, os_error: Option<i32>) -> (r: StartOutcome)
    ensures
        r == (if started {
            StartOutcome::Started
        } else if os_error == Some(ERROR_SERVICE_ALREADY_RUNNING) {
            StartOutcome::AlreadyRunning
        } else {
            StartOutcome::Failed
        }),
{
    if started {
        return StartOutcome::Started;
    }
    match os_error {
        Some(code) => if code == ERROR_SERVICE_ALREADY_RUNNING {
            StartOutcome::AlreadyRunning
        } else {
            StartOutcome::Failed
        },
        None => StartOutcome::Failed,
    }
}

/// Judges a refused stop by the system's error code: what does not run needs no stop.
pub fn stop_failed(os_error: Option<i32>) -> (r: bool)
    ensures
        r == (os_error != Some(ERROR_SERVICE_NOT_ACTIVE)),
{
    match os_error {
        Some(code) => code != ERROR_SERVICE_NOT_ACTIVE,
        None => true,
    }
}

/// Longest wait for the service to stop before it is removed, in milliseconds.
pub const STOP_WAIT_MAX_MS: u64 = 6000;

/// What a removal does after a look at the service that it has told to stop.
#[derive(Debug, Clone, Copy, PartialEq, Eq, Structural)]
pub enum StopWait {
    /// The service has stopped.
    Done,
    /// Look again.
    Again,
    /// It has been waited long enough.
    GiveUp,
}

/// Decides after a look at the service: whether the system answered, the state that it gave, and how
/// long it will have been waited at the next look.
pub fn stop_wait_step(answered: bool, state: u32, waited_ms: u64) -> (r: StopWait)
    ensures
        r is Done <==> answered && state == SERVICE_STOPPED,
        r is Again <==> !(answered && state == SERVICE_STOPPED) && waited_ms < STOP_WAIT_MAX_MS,
        r is GiveUp <==> !(answered && state == SERVICE_STOPPED) && waited_ms >= STOP_WAIT_MAX_MS,
{
    if answered && state == SERVICE_STOPPED {
        StopWait::Done
    } else if waited_ms < STOP_WAIT_MAX_MS {
        StopWait::Again
    } else {
        StopWait::GiveUp
    }
}

/// How many steps a run takes at most from a phase on.
pub open spec fn steps_left(phase: Phase) -> nat {
    match phase {
        Phase::Registering => 6,
        Phase::CreatingEvent => 5,
        Phase::StartPending => 4,
        Phase::Bootstrapping => 3,
        Phase::Starting => 2,
        Phase::Running => 1,
        Phase::Ended => 0,
    }
}

/// Every run ends: each step brings it nearer.
pub proof fn law_run_ends(phase: Phase, ok: bool)
    requires
        !(phase is Ended),
    ensures
        steps_left(phase_after(phase, ok)) < steps_left(phase),
{
}

/// Once the service manager's messages have been asked for, a run that ends tells it so, and that is
/// the last thing that it tells.
pub proof fn law_end_is_told(phase: Phase, ok: bool)
    requires
        !(phase is Ended),
        !(phase is Registering),
        phase_after(phase, ok) is Ended,
    ensures
        exists|i: int|
            0 <= i < actions_after(phase, ok).len() && (#[trigger] actions_after(
                phase,
                ok,
            )[i] matches ServiceAction::Report(s) && s.current_state == SERVICE_STOPPED && forall|k: int|
                i < k < actions_after(phase, ok).len() ==> !(#[trigger] actions_after(phase, ok)[k] is Report)),
{
    let acts = actions_after(phase, ok);
    let i: int = match phase {
        Phase::CreatingEvent => 0,
        Phase::StartPending => 1,
        Phase::Bootstrapping => 0,
        Phase::Starting => 2,
        _ => 4,
    };
    assert(acts[i] matches ServiceAction::Report(s) && s.current_state == SERVICE_STOPPED);
}

/// Whether an action is among others.
pub open spec fn is_among(action: ServiceAction, actions: Seq<ServiceAction>) -> bool {
    exists|i: int| 0 <= i < actions.len() && #[trigger] actions[i] == action
}

/// The event is closed at the end of every run that made it, and the servers are stopped at the end of
/// every run that started them.
pub proof fn law_end_leaves_nothing(phase: Phase, ok: bool)
    requires
        phase_after(phase, ok) is Ended,
    ensures
        phase is StartPending || phase is Bootstrapping || phase is Starting || phase is Running ==> is_among(
            ServiceAction::CloseStopEvent,
            actions_after(phase, ok),
        ),
        phase is Starting || phase is Running ==> is_among(ServiceAction::Shutdown, actions_after(phase, ok)),
{
    let acts = actions_after(phase, ok);
    match phase {
        Phase::StartPending => {
            assert(acts[0] == ServiceAction::CloseStopEvent);
        },
        Phase::Bootstrapping => {
            assert(acts[1] == ServiceAction::CloseStopEvent);
        },
        Phase::Starting => {
            assert(acts[1] == ServiceAction::Shutdown);
            assert(acts[3] == ServiceAction::CloseStopEvent);
        },
        Phase::Running => {
            assert(acts[2] == ServiceAction::Shutdown);
            assert(acts[5] == ServiceAction::CloseStopEvent);
        },
        _ => {},
    }
}

} // verus!
