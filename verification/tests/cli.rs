use flvproxy::cli::{parse_dispatch, Dispatch};

fn s(x: &str) -> String {
    x.to_string()
}

#[test]
fn app_parse_dispatch_no_args_selects_console() {
    assert_eq!(parse_dispatch(&[]), Dispatch::Console);
}

#[test]
fn app_parse_dispatch_service_flag_selects_service() {
    assert_eq!(parse_dispatch(&[s("--service")]), Dispatch::Service);
}

#[test]
fn app_parse_dispatch_install_flag_selects_install() {
    assert_eq!(parse_dispatch(&[s("--install")]), Dispatch::Install);
}

#[test]
fn app_parse_dispatch_uninstall_flag_selects_uninstall() {
    assert_eq!(parse_dispatch(&[s("--uninstall")]), Dispatch::Uninstall);
}

#[test]
fn app_parse_dispatch_unknown_flag_is_unknown() {
    assert_eq!(parse_dispatch(&[s("--frobnicate")]), Dispatch::Unknown("--frobnicate".to_string()));
}

#[test]
fn app_parse_dispatch_ignores_extra_args_beyond_first() {
    assert_eq!(parse_dispatch(&[s("--service"), s("noise")]), Dispatch::Service);
}

#[test]
fn cli_parse_dispatch_no_args_selects_console() {
    assert_eq!(parse_dispatch(&[]), Dispatch::Console);
}

#[test]
fn cli_parse_dispatch_service_flag_selects_service() {
    assert_eq!(parse_dispatch(&[s("--service")]), Dispatch::Service);
}

#[test]
fn cli_parse_dispatch_install_flag_selects_install() {
    assert_eq!(parse_dispatch(&[s("--install")]), Dispatch::Install);
}

#[test]
fn cli_parse_dispatch_uninstall_flag_selects_uninstall() {
    assert_eq!(parse_dispatch(&[s("--uninstall")]), Dispatch::Uninstall);
}

#[test]
fn cli_parse_dispatch_unknown_flag_is_unknown() {
    assert_eq!(parse_dispatch(&[s("--frobnicate")]), Dispatch::Unknown("--frobnicate".to_string()));
}

#[test]
fn cli_parse_dispatch_ignores_extra_args_beyond_first() {
    assert_eq!(parse_dispatch(&[s("--service"), s("noise")]), Dispatch::Service);
}
