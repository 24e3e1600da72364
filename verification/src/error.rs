//! The error taxonomy of the backup subsystem.

use vstd::prelude::*;
use vstd::string::*;

verus! {

/// What can go wrong while creating, storing or retrieving a backup.
/// `BackupNotFound` is an expected outcome, not an exceptional one:
/// retrieval of an absent identifier reports it and nothing else does.
#[derive(Clone, Debug)]
pub enum DatabaseError {
    /// A filesystem operation failed.
    Io(String),
    /// The storage backend failed (transport, service, or response).
    Storage(String),
    /// The database engine failed during export or verification.
    Sqlite(String),
    /// The configuration cannot be realized (e.g. no local directory).
    Config(String),
    /// The requested backup does not exist.
    BackupNotFound,
    /// The remote provider could not be constructed.
    Aws(String),
}

impl DatabaseError {
    /// The human-readable description of this error.
    pub open spec fn spec_message(self) -> Seq<char> {
        match self {
            DatabaseError::Io(m) => "IO error: "@ + m@,
            DatabaseError::Storage(m) => "Storage error: "@ + m@,
            DatabaseError::Sqlite(m) => "SQLite error: "@ + m@,
            DatabaseError::Config(m) => "Configuration error: "@ + m@,
            DatabaseError::BackupNotFound => "Backup not found"@,
            DatabaseError::Aws(m) => "AWS error: "@ + m@,
        }
    }

    /// Renders the error as text.
    pub fn message(&self) -> (r: String)
        ensures
            r@ == self.spec_message(),
    {
        match self {
            DatabaseError::Io(m) => {
                let mut s = String::from_str("IO error: ");
                s.append(m.as_str());
                s
            },
            DatabaseError::Storage(m) => {
                let mut s = String::from_str("Storage error: ");
                s.append(m.as_str());
                s
            },
            DatabaseError::Sqlite(m) => {
                let mut s = String::from_str("SQLite error: ");
                s.append(m.as_str());
                s
            },
            DatabaseError::Config(m) => {
                let mut s = String::from_str("Configuration error: ");
                s.append(m.as_str());
                s
            },
            DatabaseError::BackupNotFound => String::from_str("Backup not found"),
            DatabaseError::Aws(m) => {
                let mut s = String::from_str("AWS error: ");
                s.append(m.as_str());
                s
            },
        }
    }

    /// True exactly for the not-found outcome.
    pub fn is_not_found(&self) -> (r: bool)
        ensures
            r == (self is BackupNotFound),
    {
        match self {
            DatabaseError::BackupNotFound => true,
            _ => false,
        }
    }
}

} // verus!
