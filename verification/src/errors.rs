//! The error taxonomy of the backup subsystem.

use vstd::prelude::*;

verus! {

/// Every failure the subsystem can surface.
///
/// - `SourceInvalid`: the source handed to a backup is missing or not a
///   directory.
/// - `ArchiveCreationFailed`: the compressed container could not be
///   written out; carries the reason. Encoding itself happens in memory
///   and cannot fail, so this is the shell's name for a failure to put
///   the container on disk.
/// - `BackupNotFound`: a deletion target is absent. Absence is an error by
///   design, so callers can detect stale metadata.
/// - `DirResolutionFailed`: the platform could not supply a base directory.
/// - `DestinationExists`: a directory move refuses to overwrite.
/// - `StatsCorrupt`: a persisted daily-stats payload is malformed.
#[derive(Debug)]
pub enum BackupError {
    SourceInvalid,
    ArchiveCreationFailed(String),
    BackupNotFound,
    DirResolutionFailed,
    DestinationExists,
    StatsCorrupt,
}

impl BackupError {
    /// A short user-facing description of the failure.
    pub fn message(&self) -> (r: String)
        ensures
            r@ == self.message_spec(),
    {
        match self {
            BackupError::SourceInvalid => "source save folder is missing or not a directory"
                .to_owned(),
            BackupError::ArchiveCreationFailed(reason) => reason.clone(),
            BackupError::BackupNotFound => "backup file does not exist".to_owned(),
            BackupError::DirResolutionFailed => "could not resolve the application directory"
                .to_owned(),
            BackupError::DestinationExists => "destination already exists".to_owned(),
            BackupError::StatsCorrupt => "stored daily statistics are malformed".to_owned(),
        }
    }

    pub open spec fn message_spec(&self) -> Seq<char> {
        match self {
            BackupError::SourceInvalid => "source save folder is missing or not a directory"@,
            BackupError::ArchiveCreationFailed(reason) => reason@,
            BackupError::BackupNotFound => "backup file does not exist"@,
            BackupError::DirResolutionFailed => "could not resolve the application directory"@,
            BackupError::DestinationExists => "destination already exists"@,
            BackupError::StatsCorrupt => "stored daily statistics are malformed"@,
        }
    }
}

} // verus!
