//! The path resolver and its process-lifetime cache.
//!
//! Deployment mode is decided by a pure predicate over an observation of
//! the platform: `Portable` when a resource-adjacent data directory and
//! the expected database file both exist, else `Standard`. The resolver
//! derives the database-backup and save-data-backup directories from the
//! mode and from optional user overrides; `PathManager` memoizes both
//! resolutions until an explicit invalidation.

use vstd::prelude::*;
use crate::errors::BackupError;
use crate::textutil::{blank_spec, is_blank_str, joined, join_path};

verus! {

/// The caller's observation of the platform directories: where the
/// resource bundle and the per-user application-data directory are (if
/// resolvable at all), and whether the portable-mode markers — the
/// `resources/data` directory and the database file inside it — exist
/// under the resource directory.
#[derive(Debug)]
pub struct AppDirs {
    pub resource_dir: Option<String>,
    pub app_data_dir: Option<String>,
    pub portable_data_dir_exists: bool,
    pub portable_db_file_exists: bool,
}

/// Portable mode holds when the resource directory resolved and both
/// portable markers exist under it.
pub open spec fn portable_spec(d: AppDirs) -> bool {
    d.resource_dir is Some && d.portable_data_dir_exists && d.portable_db_file_exists
}

/// The base data directory per mode: the `resources` subdirectory of the
/// resource bundle when portable, else the application-data directory;
/// `None` when the needed platform directory cannot be resolved.
pub open spec fn base_data_dir_spec(d: AppDirs) -> Option<Seq<char>> {
    if portable_spec(d) {
        Some(joined(d.resource_dir->Some_0@, "resources"@))
    } else {
        match d.app_data_dir {
            Some(p) => Some(p@),
            None => None,
        }
    }
}

/// The base directory with the mode forced, regardless of the markers.
pub open spec fn base_data_dir_for_mode_spec(d: AppDirs, portable: bool) -> Option<Seq<char>> {
    if portable {
        match d.resource_dir {
            Some(p) => Some(joined(p@, "resources"@)),
            None => None,
        }
    } else {
        match d.app_data_dir {
            Some(p) => Some(p@),
            None => None,
        }
    }
}

/// Whether a configured override is effective: present and not
/// whitespace-only.
pub open spec fn override_present(ov: Option<String>) -> bool {
    match ov {
        Some(s) => !blank_spec(s@),
        None => false,
    }
}

/// The database-backup directory: an effective override verbatim, else
/// `{base}/data/backups`.
pub open spec fn resolve_db_backup_spec(d: AppDirs, ov: Option<String>) -> Option<Seq<char>> {
    if override_present(ov) {
        Some(ov->Some_0@)
    } else {
        match base_data_dir_spec(d) {
            Some(b) => Some(joined(joined(b, "data"@), "backups"@)),
            None => None,
        }
    }
}

/// The save-data-backup directory: `{override_root}/backups` under an
/// effective override, else `{base}/backups`.
pub open spec fn resolve_savedata_backup_spec(d: AppDirs, ov: Option<String>) -> Option<
    Seq<char>,
> {
    if override_present(ov) {
        Some(joined(ov->Some_0@, "backups"@))
    } else {
        match base_data_dir_spec(d) {
            Some(b) => Some(joined(b, "backups"@)),
            None => None,
        }
    }
}

/// Whether the observed layout is a portable deployment.
pub fn is_portable_mode(d: &AppDirs) -> (r: bool)
    ensures
        r == portable_spec(*d),
{
    match &d.resource_dir {
        Some(_) => d.portable_data_dir_exists && d.portable_db_file_exists,
        None => false,
    }
}

/// The base data directory for the detected mode.
pub fn get_base_data_dir(d: &AppDirs) -> (r: Result<String, BackupError>)
    ensures
        r matches Ok(p) ==> base_data_dir_spec(*d) == Some(p@),
        r matches Err(e) ==> e is DirResolutionFailed && base_data_dir_spec(*d) is None,
{
    if is_portable_mode(d) {
        match &d.resource_dir {
            Some(res) => Ok(join_path(res.as_str(), "resources")),
            None => Err(BackupError::DirResolutionFailed),
        }
    } else {
        match &d.app_data_dir {
            Some(p) => Ok(p.clone()),
            None => Err(BackupError::DirResolutionFailed),
        }
    }
}

/// The database file's path: `{base}/data/reina_manager.db`.
pub fn get_db_path(d: &AppDirs) -> (r: Result<String, BackupError>)
    ensures
        r matches Ok(p) ==> base_data_dir_spec(*d) matches Some(b) && p@ == joined(
            joined(b, "data"@),
            "reina_manager.db"@,
        ),
        r matches Err(e) ==> e is DirResolutionFailed && base_data_dir_spec(*d) is None,
{
    let base = get_base_data_dir(d)?;
    let data = join_path(base.as_str(), "data");
    Ok(join_path(data.as_str(), "reina_manager.db"))
}

/// The base data directory with the mode chosen by the caller.
pub fn get_base_data_dir_for_mode(d: &AppDirs, portable: bool) -> (r: Result<String, BackupError>)
    ensures
        r matches Ok(p) ==> base_data_dir_for_mode_spec(*d, portable) == Some(p@),
        r matches Err(e) ==> e is DirResolutionFailed && base_data_dir_for_mode_spec(*d, portable)
            is None,
{
    if portable {
        match &d.resource_dir {
            Some(res) => Ok(join_path(res.as_str(), "resources")),
            None => Err(BackupError::DirResolutionFailed),
        }
    } else {
        match &d.app_data_dir {
            Some(p) => Ok(p.clone()),
            None => Err(BackupError::DirResolutionFailed),
        }
    }
}

/// The resolver's memo: one slot per path kind, populated on first
/// resolution and held for the process lifetime until `clear_cache`.
#[derive(Debug)]
pub struct PathManager {
    db_backup_path: Option<String>,
    savedata_backup_path: Option<String>,
}

impl PathManager {
    /// The cached database-backup path, if any.
    pub closed spec fn db_cached(self) -> Option<Seq<char>> {
        match self.db_backup_path {
            Some(p) => Some(p@),
            None => None,
        }
    }

    /// The cached save-data-backup path, if any.
    pub closed spec fn savedata_cached(self) -> Option<Seq<char>> {
        match self.savedata_backup_path {
            Some(p) => Some(p@),
            None => None,
        }
    }

    /// A manager with both slots empty.
    pub fn new() -> (r: Self)
        ensures
            r.db_cached() is None,
            r.savedata_cached() is None,
    {
        PathManager { db_backup_path: None, savedata_backup_path: None }
    }

    /// Resolves the database-backup directory. An exact cache hit
    /// returns immediately, ignoring the observation and override and
    /// leaving the cache untouched; on a miss the resolved value is
    /// stored before returning. Resolution fails only when no override
    /// is effective and the platform directory is unresolvable.
    pub fn get_db_backup_path(&mut self, d: &AppDirs, override_path: &Option<String>) -> (r:
        Result<String, BackupError>)
        ensures
            old(self).db_cached() matches Some(p) ==> (r matches Ok(q) && q@ == p && *final(self)
                == *old(self)),
            old(self).db_cached() is None ==> (r matches Ok(q) ==> resolve_db_backup_spec(
                *d,
                *override_path,
            ) == Some(q@) && final(self).db_cached() == Some(q@) && final(self).savedata_cached()
                == old(self).savedata_cached()),
            old(self).db_cached() is None ==> (r matches Err(e) ==> e is DirResolutionFailed
                && resolve_db_backup_spec(*d, *override_path) is None && *final(self)
                == *old(self)),
    {
        match &self.db_backup_path {
            Some(p) => {
                return Ok(p.clone());
            },
            None => {},
        }
        let resolved = match override_path {
            Some(s) => {
                if !is_blank_str(s.as_str()) {
                    s.clone()
                } else {
                    let base = get_base_data_dir(d)?;
                    let data = join_path(base.as_str(), "data");
                    join_path(data.as_str(), "backups")
                }
            },
            None => {
                let base = get_base_data_dir(d)?;
                let data = join_path(base.as_str(), "data");
                join_path(data.as_str(), "backups")
            },
        };
        self.db_backup_path = Some(resolved.clone());
        Ok(resolved)
    }

    /// Resolves the save-data-backup directory, with the same cache
    /// discipline as `get_db_backup_path`: an effective override root
    /// gains a `backups` suffix, the default is `{base}/backups`.
    pub fn get_savedata_backup_path(&mut self, d: &AppDirs, override_root: &Option<String>) -> (r:
        Result<String, BackupError>)
        ensures
            old(self).savedata_cached() matches Some(p) ==> (r matches Ok(q) && q@ == p
                && *final(self) == *old(self)),
            old(self).savedata_cached() is None ==> (r matches Ok(q)
                ==> resolve_savedata_backup_spec(*d, *override_root) == Some(q@)
                && final(self).savedata_cached() == Some(q@) && final(self).db_cached()
                == old(self).db_cached()),
            old(self).savedata_cached() is None ==> (r matches Err(e) ==> e is DirResolutionFailed
                && resolve_savedata_backup_spec(*d, *override_root) is None && *final(self)
                == *old(self)),
    {
        match &self.savedata_backup_path {
            Some(p) => {
                return Ok(p.clone());
            },
            None => {},
        }
        let resolved = match override_root {
            Some(s) => {
                if !is_blank_str(s.as_str()) {
                    join_path(s.as_str(), "backups")
                } else {
                    let base = get_base_data_dir(d)?;
                    join_path(base.as_str(), "backups")
                }
            },
            None => {
                let base = get_base_data_dir(d)?;
                join_path(base.as_str(), "backups")
            },
        };
        self.savedata_backup_path = Some(resolved.clone());
        Ok(resolved)
    }

    /// Clears both slots unconditionally; the next resolution of either
    /// kind re-derives its path. There is no partial invalidation.
    pub fn clear_cache(&mut self)
        ensures
            final(self).db_cached() is None,
            final(self).savedata_cached() is None,
    {
        self.db_backup_path = None;
        self.savedata_backup_path = None;
    }
}

/// What is cached decides: once a slot is populated, a resolution of
/// that kind returns the cached value whatever the platform layout or
/// the overrides have become — the mode observed at first resolution
/// stays in force until `clear_cache`.
pub open spec fn db_lookup_spec(pm: PathManager, d: AppDirs, ov: Option<String>) -> Option<
    Seq<char>,
> {
    match pm.db_cached() {
        Some(p) => Some(p),
        None => resolve_db_backup_spec(d, ov),
    }
}

/// The save-data analogue of `db_lookup_spec`.
pub open spec fn savedata_lookup_spec(pm: PathManager, d: AppDirs, ov: Option<String>) -> Option<
    Seq<char>,
> {
    match pm.savedata_cached() {
        Some(p) => Some(p),
        None => resolve_savedata_backup_spec(d, ov),
    }
}

/// Cache stability: with a slot populated, the looked-up path of that
/// kind does not depend on the observation or the override — later
/// filesystem changes to the portable markers cannot move an already
/// resolved path until the cache is cleared.
pub proof fn lemma_cached_path_stable(
    pm: PathManager,
    d1: AppDirs,
    ov1: Option<String>,
    d2: AppDirs,
    ov2: Option<String>,
)
    ensures
        pm.db_cached() is Some ==> db_lookup_spec(pm, d1, ov1) == db_lookup_spec(pm, d2, ov2),
        pm.savedata_cached() is Some ==> savedata_lookup_spec(pm, d1, ov1) == savedata_lookup_spec(
            pm,
            d2,
            ov2,
        ),
{
}

} // verus!
