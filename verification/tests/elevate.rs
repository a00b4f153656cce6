use flvproxy::elevate::{is_elevated, relaunch_elevated, RelaunchError, TokenQuery};
use flvproxy::wide::to_wide;

#[test]
fn non_windows_is_elevated_stub_returns_true() {
    assert!(is_elevated(None), "where there are no tokens, nothing is missing");
}

#[test]
fn non_windows_relaunch_stub_returns_windows_only_error() {
    let err = relaunch_elevated(None).unwrap_err();
    assert_eq!(err, RelaunchError::WindowsOnly);
    assert!(err.message().contains("Windows"), "the message must explain it is Windows-only: {}", err.message());
}

#[test]
fn elevate_to_wide_ascii_appends_nul() {
    assert_eq!(to_wide("runas"), vec![b'r' as u16, b'u' as u16, b'n' as u16, b'a' as u16, b's' as u16, 0]);
}

#[test]
fn elevate_to_wide_empty_is_just_nul() {
    assert_eq!(to_wide(""), vec![0]);
}

#[test]
fn what_cannot_be_asked_has_no_rights() {
    let all = TokenQuery { opened: true, answered: true, elevation: 1 };
    assert!(is_elevated(Some(all)));
    assert!(!is_elevated(Some(TokenQuery { opened: false, ..all })));
    assert!(!is_elevated(Some(TokenQuery { answered: false, ..all })));
    assert!(!is_elevated(Some(TokenQuery { elevation: 0, ..all })));
}

#[test]
fn a_launch_is_judged_by_its_code() {
    assert_eq!(relaunch_elevated(Some(33)), Ok(()));
    assert_eq!(relaunch_elevated(Some(32)), Err(RelaunchError::Declined(32)));
    assert_eq!(
        RelaunchError::Declined(5).message(),
        "elevation declined or launch failed (ShellExecuteW returned 5); run as administrator"
    );
    assert_eq!(
        RelaunchError::Declined(-1).message(),
        "elevation declined or launch failed (ShellExecuteW returned -1); run as administrator"
    );
}
