use flvproxy::logging::{backup_name, backup_path, format_line, needs_rotation, Level};

#[test]
fn backup_path_appends_dot_one_to_file_name() {
    assert_eq!(backup_path("/tmp/flvproxy.log"), "/tmp/flvproxy.log.1");
}

#[test]
fn a_backup_has_one_more_ending() {
    assert_eq!(backup_name("flvproxy.log"), "flvproxy.log.1");
    assert_eq!(backup_name("flvproxy.log.1"), "flvproxy.log.1.1");
}

#[test]
fn backups_stand_beside_the_file() {
    for path in [
        "flvproxy.log", "./flvproxy.log", "/flvproxy.log", "//flvproxy.log", "/tmp/foo", "/tmp/foo/", "/tmp/foo//.",
        "/tmp/foo/./", "/tmp//foo", "/tmp/./foo", "a/../b", ".hidden", "..b", "...", "a/...",
    ] {
        let p = std::path::Path::new(path);
        let name = p.file_name().unwrap().to_str().unwrap();
        let want = p.with_file_name(format!("{name}.1"));
        assert_eq!(backup_path(path), want.to_str().unwrap(), "{path}");
    }
    assert_eq!(backup_path("/tmp/foo/"), "/tmp/foo.1");
    for path in ["", "/", "//", ".", "./", "./.", "..", "a/..", "/.", "/..", "a/../"] {
        assert_eq!(std::path::Path::new(path).file_name(), None);
        assert_eq!(backup_path(path), path);
    }
}

#[test]
fn lines_carry_time_and_level() {
    let line = format_line(Level::Warn, "hello", 1_735_689_600 + 3_723, 4_999_999);
    assert!(line.contains("2025-01-01"), "{line}");
    assert!(line.contains("01:02:03.004"), "{line}");
    assert!(line.contains(Level::Warn.label()), "{line}");
    assert!(line.contains("hello"), "{line}");
}

#[test]
fn a_log_is_rotated_when_it_is_full() {
    assert!(!needs_rotation(9, 10));
    assert!(needs_rotation(11, 10));
}
