//! What can go wrong, and how it is said.
use vstd::prelude::*;
use vstd::string::*;

use crate::models::ProfileId;
use crate::text::decimal_text;

verus! {

broadcast use vstd::string::group_string_axioms;

/// Any failure of the library.
#[derive(Debug, PartialEq, Eq)]
pub enum MhostError {
    Parse(ParseError),
    Apply(ApplyError),
    Storage(StorageError),
    Io(String),
    InvalidInput(String),
}

/// A line of a hosts file that cannot be understood.
#[derive(Debug, Clone, PartialEq, Eq)]
pub enum ParseError {
    InvalidIp(String),
    InvalidDomain(String),
    MalformedLine(String),
}

/// A hosts file that could not be rewritten.
#[derive(Debug, PartialEq, Eq)]
pub enum ApplyError {
    PermissionDenied(String),
    HostsFileNotFound,
    BackupFailed(String),
    ExternalModification,
    VerificationFailed(String),
}

/// Stored data that could not be read or written.
#[derive(Debug, PartialEq, Eq)]
pub enum StorageError {
    ProfileNotFound(ProfileId),
    ManifestCorrupted(String),
    VersionMismatch { expected: u32, found: u32 },
    Io(String),
}

impl ParseError {
    /// The message of the error.
    pub open spec fn message(&self) -> Seq<char> {
        match self {
            ParseError::InvalidIp(t) => "invalid IP address: "@ + t@,
            ParseError::InvalidDomain(t) => "invalid domain: "@ + t@,
            ParseError::MalformedLine(t) => "malformed line: "@ + t@,
        }
    }

    /// The message of the error.
    pub fn to_text(&self) -> (r: String)
        ensures
            r@ == self.message(),
    {
        match self {
            ParseError::InvalidIp(t) => prefixed("invalid IP address: ", t.as_str()),
            ParseError::InvalidDomain(t) => prefixed("invalid domain: ", t.as_str()),
            ParseError::MalformedLine(t) => prefixed("malformed line: ", t.as_str()),
        }
    }

    /// A copy of the error.
    pub fn copy(&self) -> (r: Self)
        ensures
            r == *self,
    {
        match self {
            ParseError::InvalidIp(t) => ParseError::InvalidIp(t.clone()),
            ParseError::InvalidDomain(t) => ParseError::InvalidDomain(t.clone()),
            ParseError::MalformedLine(t) => ParseError::MalformedLine(t.clone()),
        }
    }
}

impl ApplyError {
    /// The message of the error.
    pub open spec fn message(&self) -> Seq<char> {
        match self {
            ApplyError::PermissionDenied(t) => "permission denied: "@ + t@,
            ApplyError::HostsFileNotFound => "hosts file not found"@,
            ApplyError::BackupFailed(t) => "backup failed: "@ + t@,
            ApplyError::ExternalModification => "external modification detected"@,
            ApplyError::VerificationFailed(t) => "verification failed: "@ + t@,
        }
    }

    /// The message of the error.
    pub fn to_text(&self) -> (r: String)
        ensures
            r@ == self.message(),
    {
        match self {
            ApplyError::PermissionDenied(t) => prefixed("permission denied: ", t.as_str()),
            ApplyError::HostsFileNotFound => "hosts file not found".to_owned(),
            ApplyError::BackupFailed(t) => prefixed("backup failed: ", t.as_str()),
            ApplyError::ExternalModification => "external modification detected".to_owned(),
            ApplyError::VerificationFailed(t) => prefixed("verification failed: ", t.as_str()),
        }
    }
}

impl StorageError {
    /// The message of the error.
    pub open spec fn message(&self) -> Seq<char> {
        match self {
            StorageError::ProfileNotFound(id) => "profile not found: "@ + crate::ident::hyphenated(
                id.0.0,
            ),
            StorageError::ManifestCorrupted(t) => "manifest corrupted: "@ + t@,
            StorageError::VersionMismatch { expected, found } => "version mismatch: expected "@
                + crate::text::decimal(*expected as nat) + ", found "@ + crate::text::decimal(
                *found as nat,
            ),
            StorageError::Io(t) => "io error: "@ + t@,
        }
    }

    /// The message of the error.
    pub fn to_text(&self) -> (r: String)
        ensures
            r@ == self.message(),
    {
        match self {
            StorageError::ProfileNotFound(id) => prefixed(
                "profile not found: ",
                id.to_text().as_str(),
            ),
            StorageError::ManifestCorrupted(t) => prefixed("manifest corrupted: ", t.as_str()),
            StorageError::VersionMismatch { expected, found } => {
                let mut s: String = prefixed(
                    "version mismatch: expected ",
                    decimal_text(*expected as u64).as_str(),
                );
                s.append(", found ");
                s.append(decimal_text(*found as u64).as_str());
                s
            },
            StorageError::Io(t) => prefixed("io error: ", t.as_str()),
        }
    }
}

impl MhostError {
    /// The message of the error.
    pub open spec fn message(&self) -> Seq<char> {
        match self {
            MhostError::Parse(e) => "parse error: "@ + e.message(),
            MhostError::Apply(e) => "apply error: "@ + e.message(),
            MhostError::Storage(e) => "storage error: "@ + e.message(),
            MhostError::Io(t) => "io error: "@ + t@,
            MhostError::InvalidInput(t) => "invalid input: "@ + t@,
        }
    }

    /// The message of the error.
    pub fn to_text(&self) -> (r: String)
        ensures
            r@ == self.message(),
    {
        match self {
            MhostError::Parse(e) => prefixed("parse error: ", e.to_text().as_str()),
            MhostError::Apply(e) => prefixed("apply error: ", e.to_text().as_str()),
            MhostError::Storage(e) => prefixed("storage error: ", e.to_text().as_str()),
            MhostError::Io(t) => prefixed("io error: ", t.as_str()),
            MhostError::InvalidInput(t) => prefixed("invalid input: ", t.as_str()),
        }
    }
}

/// `a` followed by `b`.
pub fn prefixed(a: &str, b: &str) -> (r: String)
    ensures
        r@ == a@ + b@,
{
    let mut s: String = a.to_owned();
    s.append(b);
    s
}

impl From<ParseError> for MhostError {
    fn from(e: ParseError) -> (r: Self) {
        MhostError::Parse(e)
    }
}

impl vstd::std_specs::convert::FromSpecImpl<ParseError> for MhostError {
    open spec fn obeys_from_spec() -> bool {
        true
    }

    open spec fn from_spec(e: ParseError) -> Self {
        MhostError::Parse(e)
    }
}

impl From<ApplyError> for MhostError {
    fn from(e: ApplyError) -> (r: Self) {
        MhostError::Apply(e)
    }
}

impl vstd::std_specs::convert::FromSpecImpl<ApplyError> for MhostError {
    open spec fn obeys_from_spec() -> bool {
        true
    }

    open spec fn from_spec(e: ApplyError) -> Self {
        MhostError::Apply(e)
    }
}

impl From<StorageError> for MhostError {
    fn from(e: StorageError) -> (r: Self) {
        MhostError::Storage(e)
    }
}

impl vstd::std_specs::convert::FromSpecImpl<StorageError> for MhostError {
    open spec fn obeys_from_spec() -> bool {
        true
    }

    open spec fn from_spec(e: StorageError) -> Self {
        MhostError::Storage(e)
    }
}

} // verus!
