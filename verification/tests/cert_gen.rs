use flvproxy::cert_gen::{
    container_name, generate_self_signed_pfx, subject_cn, validity_end, Archive, CertGenError, CertTime,
};

#[test]
fn cert_gen_subject_cn_wraps_hostname() {
    assert_eq!(subject_cn("cam1"), "CN=cam1");
    assert_eq!(subject_cn(""), "CN=");
}

#[test]
fn non_windows_stub_returns_windows_only_error() {
    let err = generate_self_signed_pfx(None).unwrap_err();
    assert_eq!(err, CertGenError::WindowsOnly);
    assert!(err.message().contains("Windows"), "the message must explain it is Windows-only: {}", err.message());
}

#[test]
fn container_name_is_unique_and_prefixed() {
    let a = container_name("host", 1_000_000_001);
    let b = container_name("host", 1_000_000_002);
    assert!(a.starts_with("flvproxy_cert_host_"), "{a}");
    assert_ne!(a, b, "container names must be unique across calls");
}

#[test]
fn systemtime_default_is_all_zero() {
    let st = CertTime::default();
    assert_eq!(st.year, 0);
    assert_eq!(st.milliseconds, 0);
}

#[test]
fn validity_is_ten_years_to_a_day_that_exists() {
    let start = CertTime { year: 2024, month: 2, day: 29, hour: 7, ..CertTime::default() };
    let end = validity_end(start);
    assert_eq!((end.year, end.month, end.day, end.hour), (2034, 2, 28, 7));
    let late = CertTime { year: 65_530, month: 12, day: 5, ..CertTime::default() };
    assert_eq!(validity_end(late).year, u16::MAX);
}

#[test]
fn an_archive_has_to_hold_a_certificate_and_its_key() {
    let whole = Archive { bytes: 2_400, has_certificate: true, has_private_key: true };
    assert_eq!(generate_self_signed_pfx(Some(Ok(whole))), Ok(()));
    let empty = Archive { bytes: 0, ..whole };
    assert_eq!(generate_self_signed_pfx(Some(Ok(empty))), Err(CertGenError::Empty));
    let bare = Archive { has_certificate: false, ..whole };
    assert_eq!(generate_self_signed_pfx(Some(Ok(bare))), Err(CertGenError::NoCertificate));
    let keyless = Archive { has_private_key: false, ..whole };
    assert_eq!(generate_self_signed_pfx(Some(Ok(keyless))), Err(CertGenError::NoPrivateKey));
    assert!(CertGenError::NoPrivateKey.message().contains("SEC_E_NO_CREDENTIALS"));
    let failed = CertGenError::Call("CryptGenKey".to_string(), "denied".to_string());
    assert_eq!(generate_self_signed_pfx(Some(Err(failed.clone()))), Err(failed.clone()));
    assert_eq!(failed.message(), "CertGen/CryptGenKey: denied");
    assert_eq!(CertGenError::Write("full".to_string()).message(), "CertGen/write: full");
}
