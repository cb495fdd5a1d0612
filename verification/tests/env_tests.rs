use mini_swe_agent::env::{ExecutionResult, LocalEnvironment};
use std::path::PathBuf;

#[test]
fn output_combines_streams() {
    let r = ExecutionResult::from_text("out".to_string(), "err".to_string(), Some(2));
    assert_eq!(r.output, "out\nerr");
    assert_eq!(r.returncode, 2);
    assert_eq!(r.exception_info, "");
    let r = ExecutionResult::from_text("".to_string(), "err".to_string(), Some(1));
    assert_eq!(r.output, "err");
    let r = ExecutionResult::from_text("out".to_string(), "".to_string(), None);
    assert_eq!(r.output, "out");
    assert_eq!(r.returncode, -1);
}

#[test]
fn output_from_bytes_replaces_invalid_utf8() {
    let r = ExecutionResult::from_output(b"ok\xff", b"", Some(0));
    assert_eq!(r.output, "ok\u{FFFD}");
    let r = ExecutionResult::from_output("héllo".as_bytes(), b"bad", Some(3));
    assert_eq!(r.output, "héllo\nbad");
    assert_eq!(r.returncode, 3);
}

#[test]
fn spawn_failure_is_reported() {
    let r = ExecutionResult::spawn_failed("No such file or directory (os error 2)");
    assert_eq!(r.output, "");
    assert_eq!(r.returncode, -1);
    assert_eq!(r.exception_info, "Failed to execute command: No such file or directory (os error 2)");
}

#[test]
fn environment_directory_choice() {
    let e = LocalEnvironment::new(Some(PathBuf::from("/a")), Some(PathBuf::from("/b")));
    assert_eq!(e.cwd, PathBuf::from("/a"));
    let e = LocalEnvironment::new(None, Some(PathBuf::from("/b")));
    assert_eq!(e.cwd, PathBuf::from("/b"));
    let e = LocalEnvironment::new(None, None);
    assert_eq!(e.cwd, PathBuf::from("."));
}

#[test]
fn valid_output_is_kept_and_empty_stays_empty() {
    let r = ExecutionResult::from_output(b"", b"", Some(3));
    assert_eq!(r.output, "");
    assert_eq!(r.returncode, 3);
    assert_eq!(r.exception_info, "");
    let r = ExecutionResult::from_output(b"a", b"b", Some(0));
    assert_eq!(r.output, "a\nb");
    let r = ExecutionResult::from_output(b"", b"\xc3", Some(1));
    assert!(r.output.contains('\u{FFFD}'));
}
