//! Messages of errors.
use mhost::error::{ApplyError, MhostError, ParseError, StorageError};
use mhost::ident::Uuid;
use mhost::models::ProfileId;

#[test]
fn test_error_display() {
    let cases: Vec<(&str, MhostError, &str)> = vec![
        (
            "parse_invalid_ip",
            MhostError::Parse(ParseError::InvalidIp("999.999.999.999".to_string())),
            "invalid IP address",
        ),
        (
            "parse_invalid_domain",
            MhostError::Parse(ParseError::InvalidDomain("-bad.com".to_string())),
            "invalid domain",
        ),
        (
            "parse_malformed_line",
            MhostError::Parse(ParseError::MalformedLine("foo bar".to_string())),
            "malformed line",
        ),
        (
            "apply_permission_denied",
            MhostError::Apply(ApplyError::PermissionDenied("no sudo".to_string())),
            "permission denied",
        ),
        (
            "apply_hosts_file_not_found",
            MhostError::Apply(ApplyError::HostsFileNotFound),
            "hosts file not found",
        ),
        (
            "apply_backup_failed",
            MhostError::Apply(ApplyError::BackupFailed("disk full".to_string())),
            "backup failed",
        ),
        (
            "apply_external_modification",
            MhostError::Apply(ApplyError::ExternalModification),
            "external modification detected",
        ),
        (
            "apply_verification_failed",
            MhostError::Apply(ApplyError::VerificationFailed("mismatch".to_string())),
            "verification failed",
        ),
        (
            "storage_profile_not_found",
            MhostError::Storage(StorageError::ProfileNotFound(ProfileId(Uuid::nil()))),
            "profile not found",
        ),
        (
            "storage_manifest_corrupted",
            MhostError::Storage(StorageError::ManifestCorrupted("bad json".to_string())),
            "manifest corrupted",
        ),
        (
            "storage_io",
            MhostError::Storage(StorageError::Io("disk full".to_string())),
            "io error",
        ),
        (
            "storage_version_mismatch",
            MhostError::Storage(StorageError::VersionMismatch {
                expected: 1,
                found: 2,
            }),
            "version mismatch",
        ),
        (
            "invalid_input",
            MhostError::InvalidInput("bad args".to_string()),
            "invalid input",
        ),
    ];

    for (name, err, expected_substring) in cases {
        let msg = err.to_text();
        assert!(
            msg.contains(expected_substring),
            "case: {} - expected '{}' in '{}'",
            name,
            expected_substring,
            msg
        );
    }
}

#[test]
fn test_parse_error_from_impl() {
    let parse_err = ParseError::InvalidIp("bad".to_string());
    let mhost_err: MhostError = parse_err.into();
    assert!(mhost_err.to_text().contains("invalid IP address"));
}

#[test]
fn test_apply_error_from_impl() {
    let apply_err = ApplyError::HostsFileNotFound;
    let mhost_err: MhostError = apply_err.into();
    assert!(mhost_err.to_text().contains("hosts file not found"));
}

#[test]
fn test_storage_error_from_impl() {
    let storage_err = StorageError::VersionMismatch {
        expected: 1,
        found: 2,
    };
    let mhost_err: MhostError = storage_err.into();
    assert!(mhost_err.to_text().contains("version mismatch"));
}

#[test]
fn test_io_error_from_impl() {
    let mhost_err = MhostError::Io("file gone".to_string());
    assert!(mhost_err.to_text().contains("file gone"));
}

#[test]
fn the_exact_messages() {
    assert_eq!(
        MhostError::from(ParseError::InvalidIp("x".to_string())).to_text(),
        "parse error: invalid IP address: x"
    );
    assert_eq!(
        MhostError::from(StorageError::VersionMismatch { expected: 1, found: 2 }).to_text(),
        "storage error: version mismatch: expected 1, found 2"
    );
    assert_eq!(
        MhostError::from(StorageError::ProfileNotFound(ProfileId(Uuid::nil()))).to_text(),
        "storage error: profile not found: 00000000-0000-0000-0000-000000000000"
    );
    assert_eq!(MhostError::InvalidInput("bad".to_string()).to_text(), "invalid input: bad");
}
