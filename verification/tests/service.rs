use flvproxy::cli::{EXIT_FAILURE, EXIT_OK, EXIT_WINDOWS_ONLY};
use flvproxy::service::{
    install, on_control, report_status, report_stopped_error, run_as_service, service_account, service_command,
    service_name_wide, start_outcome, stop_failed, stop_wait_step, uninstall, ControlReaction, InstallOutcome, ServiceAction,
    ServiceRun, StartOutcome, StopWait, UninstallOutcome, SERVICE_NAME, SERVICE_RUNNING, SERVICE_STOPPED,
};

#[test]
fn service_name_wide_is_nul_terminated_and_matches_name() {
    let wide = service_name_wide();
    assert_eq!(*wide.last().unwrap(), 0, "service name must be NUL-terminated");
    let without_nul = &wide[..wide.len() - 1];
    assert_eq!(String::from_utf16_lossy(without_nul), SERVICE_NAME);
}

#[test]
fn service_name_is_flvproxy() {
    assert_eq!(SERVICE_NAME, "flvproxy");
}

#[test]
fn service_account_name_is_nt_service_virtual_account() {
    assert_eq!(service_account(), "NT SERVICE\\flvproxy");
}

#[test]
fn non_windows_entry_fns_return_windows_only_without_ffi() {
    assert_eq!(run_as_service(None), EXIT_WINDOWS_ONLY);
    assert_eq!(install(None), EXIT_WINDOWS_ONLY);
    assert_eq!(uninstall(None), EXIT_WINDOWS_ONLY);
}

#[test]
fn exit_codes_tell_success_from_failure() {
    assert_eq!(run_as_service(Some(true)), EXIT_OK);
    assert_eq!(run_as_service(Some(false)), EXIT_FAILURE);
    assert_eq!(install(Some(InstallOutcome::Registered)), EXIT_OK);
    assert_eq!(install(Some(InstallOutcome::NoManager)), EXIT_FAILURE);
    assert_eq!(install(Some(InstallOutcome::NoPath)), EXIT_FAILURE);
    assert_eq!(install(Some(InstallOutcome::NotCreated)), EXIT_FAILURE);
    assert_eq!(uninstall(Some(UninstallOutcome::Deleted)), EXIT_OK);
    assert_eq!(uninstall(Some(UninstallOutcome::NotDeleted)), EXIT_FAILURE);
}

#[test]
fn the_command_asks_for_service_mode() {
    assert_eq!(service_command("C:\\p.exe"), "C:\\p.exe --service");
}

#[test]
fn a_good_run_ends_stopped_with_nothing_left() {
    let mut run = ServiceRun::new();
    assert_eq!(run.step(true), vec![ServiceAction::CreateStopEvent]);
    assert!(matches!(run.step(true)[..], [ServiceAction::Report(_)]));
    assert_eq!(run.step(true), vec![ServiceAction::Bootstrap]);
    assert_eq!(
        run.step(true),
        vec![
            ServiceAction::Spawn,
            ServiceAction::LogStarted,
            ServiceAction::Report(report_status(SERVICE_RUNNING, 1, 0, 0))
        ]
    );
    assert_eq!(run.step(true), vec![ServiceAction::WaitForStop]);
    assert!(!run.is_ended());
    assert_eq!(
        run.step(true),
        vec![
            ServiceAction::LogStopping,
            ServiceAction::Report(report_status(3, 0, 2, 5000)),
            ServiceAction::Shutdown,
            ServiceAction::LogStopped,
            ServiceAction::Report(report_status(SERVICE_STOPPED, 0, 0, 0)),
            ServiceAction::CloseStopEvent,
        ]
    );
    assert!(run.is_ended());
    assert_eq!(run.step(true), vec![]);
}

#[test]
fn a_run_that_cannot_start_says_so() {
    let mut run = ServiceRun::new();
    run.step(true);
    run.step(true);
    run.step(true);
    assert_eq!(
        run.step(false),
        vec![ServiceAction::Report(report_stopped_error(1)), ServiceAction::CloseStopEvent]
    );
    assert!(run.is_ended());
    let mut alone = ServiceRun::new();
    assert_eq!(alone.step(false), vec![]);
    assert!(alone.is_ended());
}

#[test]
fn messages_of_the_manager_are_answered() {
    assert_eq!(on_control(1, SERVICE_RUNNING), ControlReaction::SignalStop);
    assert_eq!(on_control(4, SERVICE_RUNNING), ControlReaction::Report(report_status(SERVICE_RUNNING, 1, 0, 0)));
    assert_eq!(on_control(4, SERVICE_STOPPED), ControlReaction::Report(report_status(SERVICE_STOPPED, 0, 0, 0)));
    assert_eq!(on_control(9, SERVICE_RUNNING), ControlReaction::Ignore);
}

#[test]
fn harmless_errors_are_known() {
    assert_eq!(start_outcome(true, None), StartOutcome::Started);
    assert_eq!(start_outcome(false, Some(1056)), StartOutcome::AlreadyRunning);
    assert_eq!(start_outcome(false, Some(5)), StartOutcome::Failed);
    assert!(!stop_failed(Some(1062)));
    assert!(stop_failed(Some(5)));
    assert!(stop_failed(None));
}

#[test]
fn a_removal_waits_for_the_end_but_not_for_ever() {
    assert_eq!(stop_wait_step(true, SERVICE_STOPPED, 0), StopWait::Done);
    assert_eq!(stop_wait_step(true, SERVICE_STOPPED, 9000), StopWait::Done);
    assert_eq!(stop_wait_step(false, SERVICE_STOPPED, 5999), StopWait::Again);
    assert_eq!(stop_wait_step(true, SERVICE_RUNNING, 5999), StopWait::Again);
    assert_eq!(stop_wait_step(true, SERVICE_RUNNING, 6000), StopWait::GiveUp);
    assert_eq!(stop_wait_step(false, 0, 6000), StopWait::GiveUp);
}
