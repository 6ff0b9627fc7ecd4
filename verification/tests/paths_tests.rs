use reina_backup::errors::BackupError;
use reina_backup::paths::{
    get_base_data_dir, get_base_data_dir_for_mode, get_db_path, is_portable_mode, AppDirs,
    PathManager,
};

fn portable_dirs() -> AppDirs {
    AppDirs {
        resource_dir: Some("/install".to_string()),
        app_data_dir: Some("/home/user/.local/share/app".to_string()),
        portable_data_dir_exists: true,
        portable_db_file_exists: true,
    }
}

fn standard_dirs() -> AppDirs {
    AppDirs {
        resource_dir: Some("/install".to_string()),
        app_data_dir: Some("/home/user/.local/share/app".to_string()),
        portable_data_dir_exists: false,
        portable_db_file_exists: false,
    }
}

#[test]
fn portable_mode_needs_both_markers() {
    assert!(is_portable_mode(&portable_dirs()));
    assert!(!is_portable_mode(&standard_dirs()));
    let mut half = portable_dirs();
    half.portable_db_file_exists = false;
    assert!(!is_portable_mode(&half));
    let mut no_resource = portable_dirs();
    no_resource.resource_dir = None;
    assert!(!is_portable_mode(&no_resource));
}

#[test]
fn base_dir_per_mode() {
    assert_eq!(
        get_base_data_dir(&portable_dirs()).unwrap(),
        "/install/resources"
    );
    assert_eq!(
        get_base_data_dir(&standard_dirs()).unwrap(),
        "/home/user/.local/share/app"
    );
    let none = AppDirs {
        resource_dir: None,
        app_data_dir: None,
        portable_data_dir_exists: false,
        portable_db_file_exists: false,
    };
    assert!(matches!(
        get_base_data_dir(&none),
        Err(BackupError::DirResolutionFailed)
    ));
}

#[test]
fn forced_mode_base_dir() {
    assert_eq!(
        get_base_data_dir_for_mode(&standard_dirs(), true).unwrap(),
        "/install/resources"
    );
    assert_eq!(
        get_base_data_dir_for_mode(&portable_dirs(), false).unwrap(),
        "/home/user/.local/share/app"
    );
}

#[test]
fn db_path_under_base() {
    assert_eq!(
        get_db_path(&portable_dirs()).unwrap(),
        "/install/resources/data/reina_manager.db"
    );
}

#[test]
fn default_paths_without_override() {
    let mut pm = PathManager::new();
    let db = pm.get_db_backup_path(&portable_dirs(), &None).unwrap();
    assert_eq!(db, "/install/resources/data/backups");
    let save = pm.get_savedata_backup_path(&portable_dirs(), &None).unwrap();
    assert_eq!(save, "/install/resources/backups");
}

#[test]
fn override_used_verbatim_for_db_and_suffixed_for_savedata() {
    let mut pm = PathManager::new();
    let ov = Some("/custom/backups".to_string());
    let db = pm.get_db_backup_path(&standard_dirs(), &ov).unwrap();
    assert_eq!(db, "/custom/backups");
    let root = Some("/custom/saves".to_string());
    let save = pm.get_savedata_backup_path(&standard_dirs(), &root).unwrap();
    assert_eq!(save, "/custom/saves/backups");
}

#[test]
fn blank_override_treated_as_absent() {
    let mut pm = PathManager::new();
    let ov = Some("   \t ".to_string());
    let db = pm.get_db_backup_path(&standard_dirs(), &ov).unwrap();
    assert_eq!(db, "/home/user/.local/share/app/data/backups");
}

#[test]
fn cache_holds_first_resolution_until_invalidated() {
    // Portable mode is detected once; later filesystem changes to the
    // portable markers do not move the resolved path until the cache is
    // cleared.
    let mut pm = PathManager::new();
    let first = pm.get_db_backup_path(&portable_dirs(), &None).unwrap();
    assert_eq!(first, "/install/resources/data/backups");

    let second = pm.get_db_backup_path(&standard_dirs(), &None).unwrap();
    assert_eq!(second, first);

    pm.clear_cache();
    let third = pm.get_db_backup_path(&standard_dirs(), &None).unwrap();
    assert_eq!(third, "/home/user/.local/share/app/data/backups");
}

#[test]
fn clear_cache_clears_both_kinds() {
    let mut pm = PathManager::new();
    let db = pm.get_db_backup_path(&portable_dirs(), &None).unwrap();
    let save = pm.get_savedata_backup_path(&portable_dirs(), &None).unwrap();
    assert_eq!(db, "/install/resources/data/backups");
    assert_eq!(save, "/install/resources/backups");
    pm.clear_cache();
    let ov = Some("/moved".to_string());
    assert_eq!(pm.get_db_backup_path(&standard_dirs(), &ov).unwrap(), "/moved");
    assert_eq!(
        pm.get_savedata_backup_path(&standard_dirs(), &ov).unwrap(),
        "/moved/backups"
    );
}

#[test]
fn resolution_failure_does_not_populate_cache() {
    let none = AppDirs {
        resource_dir: None,
        app_data_dir: None,
        portable_data_dir_exists: false,
        portable_db_file_exists: false,
    };
    let mut pm = PathManager::new();
    assert!(pm.get_db_backup_path(&none, &None).is_err());
    let db = pm.get_db_backup_path(&portable_dirs(), &None).unwrap();
    assert_eq!(db, "/install/resources/data/backups");
}
