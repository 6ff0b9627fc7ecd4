//! The backup orchestrator: derives the per-game destination layout and
//! file naming, invokes the archive writer, and decides deletions.
//!
//! The caller observes the filesystem (does the source exist and is it a
//! directory? which regular files lie under it?) and passes the
//! observation in; every decision, name and byte of the archive is
//! computed and specified here. The caller then creates the game
//! directory, writes the archive bytes at the returned path, or removes
//! the returned deletion target.

use vstd::prelude::*;
use vstd::string::StringExecFns;
use crate::archive::{
    SourceFile, entries_of, sz_pack, to_archive_entries, wf_source_names, write_archive,
};
use crate::errors::BackupError;
use crate::numfmt::{dec_str_signed, push_dec_i64};
use crate::textutil::{
    HostSeparator, joined, sep_normalized_to, string_from_chars, join_path, normalize_separators,
};

verus! {

/// The latest timestamp the naming scheme accepts: 9999-12-31T23:59:59Z,
/// keeping the rendered year at four digits.
pub const MAX_BACKUP_TS: i64 = 253402300799;

/// What a backup returns on success: the archive file's name, the
/// second-resolution creation time, the archive size in bytes, and the
/// full destination path.
#[derive(Debug)]
pub struct BackupInfo {
    pub folder_name: String,
    pub backup_time: i64,
    pub file_size: u64,
    pub backup_path: String,
}

/// The caller's observation of the requested source directory.
#[derive(Debug)]
pub enum SourceDirState {
    /// Nothing exists at the source path.
    Missing,
    /// The source path exists but is not a directory.
    NotADirectory,
    /// The source is a directory; these are all regular files under it,
    /// in listing order. Empty directories contribute nothing.
    Listed(Vec<SourceFile>),
}

/// Everything the caller must materialize for one completed backup.
#[derive(Debug)]
pub struct BackupPlan {
    /// The per-game directory to create if absent.
    pub game_dir: String,
    /// The record describing the backup.
    pub info: BackupInfo,
    /// The complete archive, to be written at `info.backup_path`.
    pub archive: Vec<u8>,
}

/// The compact UTC rendering (`YYYYMMDD_HHMMSS`) of a unix timestamp.
pub uninterp spec fn utc_compact(ts: i64) -> Seq<char>;

/// Relies on `chrono::DateTime::from_timestamp` and its strftime
/// rendering with `%Y%m%d_%H%M%S`: the result is derived from the UTC
/// calendar fields of the timestamp alone, independent of locale, time
/// zone or clock.
#[verifier::external_body]
fn format_utc_compact(ts: i64) -> (r: String)
    requires
        0 <= ts <= MAX_BACKUP_TS,
    ensures
        r@ == utc_compact(ts),
{
    let dt = chrono::DateTime::<chrono::Utc>::from_timestamp(ts, 0).unwrap();
    format!("{}", dt.format("%Y%m%d_%H%M%S"))
}

/// The name of the per-game backup directory: `game_{id}`.
pub open spec fn game_dir_name_spec(game_id: i64) -> Seq<char> {
    "game_"@ + dec_str_signed(game_id as int)
}

/// The archive file name: `savedata_{id}_{YYYYMMDD_HHMMSS}.7z`. For a
/// fixed game the name depends on the timestamp alone, so two backups
/// within the same second target the same file: the second write
/// overwrites the first, by design, rather than losing either record.
pub open spec fn backup_file_name_spec(game_id: i64, ts: i64) -> Seq<char> {
    "savedata_"@ + dec_str_signed(game_id as int) + "_"@ + utc_compact(ts) + ".7z"@
}

/// Renders `game_{id}`.
pub fn game_dir_name(game_id: i64) -> (r: String)
    ensures
        r@ == game_dir_name_spec(game_id),
{
    let mut digits: Vec<char> = Vec::new();
    push_dec_i64(game_id, &mut digits);
    let num = string_from_chars(&digits);
    let mut r = "game_".to_owned();
    r.append(num.as_str());
    r
}

/// Renders `savedata_{id}_{YYYYMMDD_HHMMSS}.7z`.
pub fn backup_file_name(game_id: i64, ts: i64) -> (r: String)
    requires
        0 <= ts <= MAX_BACKUP_TS,
    ensures
        r@ == backup_file_name_spec(game_id, ts),
{
    let mut digits: Vec<char> = Vec::new();
    push_dec_i64(game_id, &mut digits);
    let num = string_from_chars(&digits);
    let stamp = format_utc_compact(ts);
    let mut r = "savedata_".to_owned();
    r.append(num.as_str());
    r.append("_");
    r.append(stamp.as_str());
    r.append(".7z");
    proof {
        assert(r@ =~= backup_file_name_spec(game_id, ts));
    }
    r
}

/// Creates a save-data backup from an observed source directory.
///
/// An absent or non-directory source is rejected with `SourceInvalid`
/// before anything is derived, so no destination structure is implied.
/// A listed source always succeeds — the container is encoded in
/// memory, which cannot fail — provided its file names are NUL-free,
/// which every real filesystem guarantees and the format requires.
/// The plan pins every output: the
/// per-game directory `{root}/game_{id}`, the file name
/// `savedata_{id}_{YYYYMMDD_HHMMSS}.7z`, the destination path beneath
/// the per-game directory, the archive bytes as the packing of exactly
/// the listed files under their relative paths, and the recorded size
/// as the archive's byte length, always nonzero.
pub fn create_savedata_backup(
    game_id: i64,
    source: &SourceDirState,
    backup_root_dir: &str,
    now_ts: i64,
) -> (r: Result<BackupPlan, BackupError>)
    requires
        0 <= now_ts <= MAX_BACKUP_TS,
        source matches SourceDirState::Listed(files) ==> wf_source_names(
            files@.map_values(|f: SourceFile| f@),
        ),
    ensures
        source is Missing || source is NotADirectory ==> (r matches Err(e) && e is SourceInvalid),
        source is Listed ==> r is Ok,
        source matches SourceDirState::Listed(files) ==> (r matches Ok(p) ==> p.game_dir@ == joined(
            backup_root_dir@,
            game_dir_name_spec(game_id),
        ) && p.info.folder_name@ == backup_file_name_spec(game_id, now_ts) && p.info.backup_time
            == now_ts && p.info.backup_path@ == joined(p.game_dir@, p.info.folder_name@)
            && p.archive@ == sz_pack(entries_of(files@.map_values(|f: SourceFile| f@)))
            && p.info.file_size == p.archive@.len() && p.info.file_size > 0),
{
    let files = match source {
        SourceDirState::Missing => {
            return Err(BackupError::SourceInvalid);
        },
        SourceDirState::NotADirectory => {
            return Err(BackupError::SourceInvalid);
        },
        SourceDirState::Listed(files) => files,
    };
    let dir_name = game_dir_name(game_id);
    let game_dir = join_path(backup_root_dir, dir_name.as_str());
    let folder_name = backup_file_name(game_id, now_ts);
    let backup_path = join_path(game_dir.as_str(), folder_name.as_str());
    let entries = to_archive_entries(files);
    let archive = write_archive(&entries);
    let file_size = archive.len() as u64;
    Ok(BackupPlan {
        game_dir,
        info: BackupInfo { folder_name, backup_time: now_ts, file_size, backup_path },
        archive,
    })
}

/// Decides a backup deletion. The raw path is first normalized to the
/// host's separator convention, which the caller names as a value
/// (the library itself is platform-neutral); the caller reports whether
/// a file exists at the normalized path. An absent target is an error —
/// `BackupNotFound` — by design, so stale records are surfaced rather
/// than swallowed; an existing target is returned for the caller to
/// remove.
pub fn delete_savedata_backup(
    backup_file_path: &str,
    host: HostSeparator,
    exists_normalized: bool,
) -> (r: Result<String, BackupError>)
    ensures
        r matches Ok(p) ==> exists_normalized && p@ == sep_normalized_to(
            backup_file_path@,
            host,
        ),
        r matches Err(e) ==> !exists_normalized && e is BackupNotFound,
{
    let normalized = normalize_separators(backup_file_path, host);
    if !exists_normalized {
        return Err(BackupError::BackupNotFound);
    }
    Ok(normalized)
}

} // verus!
