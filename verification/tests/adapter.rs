//! The platforms that hosts files are written on.
use mhost::apply::platform::{
    escape_applescript_path, escape_text, move_outcome, move_script, validate_path_characters,
    MacOsAdapter, WindowsAdapter,
};
use mhost::error::{ApplyError, MhostError};

#[test]
fn macos_test_escape_applescript_path() {
    assert_eq!(
        escape_applescript_path("/path/to/file").unwrap(),
        "/path/to/file"
    );
    assert_eq!(
        escape_applescript_path("/path/with\"quote").unwrap(),
        "/path/with\\\"quote"
    );
    assert_eq!(
        escape_applescript_path("/path/with\\backslash").unwrap(),
        "/path/with\\\\backslash"
    );
    assert_eq!(
        escape_applescript_path("/path/with\\\"both").unwrap(),
        "/path/with\\\\\\\"both"
    );
}

#[test]
fn test_escape_applescript_path_rejects_illegal_chars() {
    let result = escape_applescript_path("/path/with space");
    assert!(result.is_err(), "space should be rejected");
    let msg = result.unwrap_err().to_text();
    assert!(msg.contains("illegal character"), "error should mention illegal character: {}", msg);

    let result = escape_applescript_path("/path/with;semicolon");
    assert!(result.is_err(), "semicolon should be rejected");

    let result = escape_applescript_path("/path/with$dollar");
    assert!(result.is_err(), "dollar should be rejected");

    let result = escape_applescript_path("/path/with|pipe");
    assert!(result.is_err(), "pipe should be rejected");
}

#[test]
fn writer_test_escape_applescript_path() {
    assert_eq!(
        escape_text("/path/to/file"),
        "/path/to/file"
    );
    assert_eq!(
        escape_text("/path/with\"quote"),
        "/path/with\\\"quote"
    );
    assert_eq!(
        escape_text("/path/with\\backslash"),
        "/path/with\\\\backslash"
    );
    assert_eq!(
        escape_text("/path/with\\\"both"),
        "/path/with\\\\\\\"both"
    );
}

#[test]
fn where_the_hosts_file_is() {
    assert_eq!(MacOsAdapter.hosts_file(), "/etc/hosts");
    assert_eq!(MacOsAdapter.name(), "macos");
    assert_eq!(WindowsAdapter.hosts_file(), "C:\\Windows\\System32\\drivers\\etc\\hosts");
    assert_eq!(WindowsAdapter.name(), "windows");
}

#[test]
fn a_move_is_a_script() {
    assert_eq!(
        move_script("/tmp/a", "/etc/hosts").unwrap(),
        "do shell script \"mv /tmp/a /etc/hosts\" with administrator privileges"
    );
    assert!(move_script("/tmp/a b", "/etc/hosts").is_err());
    assert!(move_script("/tmp/a", "/etc/ho;sts").is_err());
    assert!(validate_path_characters("/a/b-c_d.e").is_ok());
}

#[test]
fn a_move_can_be_refused() {
    assert_eq!(move_outcome(true, "x"), Ok(()));
    assert_eq!(
        move_outcome(false, "no"),
        Err(MhostError::Apply(ApplyError::PermissionDenied("no".to_string())))
    );
}
