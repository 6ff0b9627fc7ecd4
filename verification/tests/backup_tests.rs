use reina_backup::archive::{read_archive, SourceFile};
use reina_backup::backup::{
    backup_file_name, create_savedata_backup, delete_savedata_backup, game_dir_name,
    SourceDirState,
};
use reina_backup::errors::BackupError;
use reina_backup::textutil::HostSeparator;

fn file(segments: &[&str], data: &[u8]) -> SourceFile {
    SourceFile {
        rel_segments: segments.iter().map(|s| s.to_string()).collect(),
        data: data.to_vec(),
    }
}

// 2023-11-14T22:13:20Z
const TS: i64 = 1700000000;

#[test]
fn backup_names_embed_game_and_timestamp() {
    assert_eq!(backup_file_name(7, TS), "savedata_7_20231114_221320.7z");
    assert_eq!(game_dir_name(7), "game_7");
    assert_eq!(backup_file_name(123, 0), "savedata_123_19700101_000000.7z");
}

#[test]
fn create_backup_scenario() {
    let files = vec![file(&["a.txt"], b"abc"), file(&["sub", "b.txt"], b"hello")];
    let source = SourceDirState::Listed(files);
    // A trailing slash on the backup root is not doubled in the paths.
    let plan = create_savedata_backup(7, &source, "./backups/", TS).expect("backup");
    assert_eq!(plan.game_dir, "./backups/game_7");
    assert_eq!(plan.info.folder_name, "savedata_7_20231114_221320.7z");
    assert_eq!(
        plan.info.backup_path,
        "./backups/game_7/savedata_7_20231114_221320.7z"
    );
    assert_eq!(plan.info.backup_time, TS);
    assert!(plan.info.file_size > 0);
    assert_eq!(plan.info.file_size, plan.archive.len() as u64);

    let extracted = read_archive(&plan.archive);
    let mut got: Vec<(String, Vec<u8>)> = extracted
        .iter()
        .map(|e| (e.name.clone(), e.data.clone()))
        .collect();
    got.sort();
    let want = vec![
        ("a.txt".to_string(), b"abc".to_vec()),
        ("sub/b.txt".to_string(), b"hello".to_vec()),
    ];
    assert_eq!(got, want);
}

#[test]
fn create_backup_missing_source_fails() {
    let r = create_savedata_backup(7, &SourceDirState::Missing, "./backups", TS);
    assert!(matches!(r, Err(BackupError::SourceInvalid)));
}

#[test]
fn create_backup_non_directory_source_fails() {
    let r = create_savedata_backup(7, &SourceDirState::NotADirectory, "./backups", TS);
    assert!(matches!(r, Err(BackupError::SourceInvalid)));
}

#[test]
fn same_second_backups_collide_deterministically() {
    // Two backups for one game within the same second target the same
    // file: a documented overwrite, not a silent loss.
    let source1 = SourceDirState::Listed(vec![file(&["a.txt"], b"one")]);
    let source2 = SourceDirState::Listed(vec![file(&["a.txt"], b"two")]);
    let p1 = create_savedata_backup(9, &source1, "root", TS).expect("first");
    let p2 = create_savedata_backup(9, &source2, "root", TS).expect("second");
    assert_eq!(p1.info.folder_name, p2.info.folder_name);
    assert_eq!(p1.info.backup_path, p2.info.backup_path);
}

#[test]
fn distinct_seconds_give_distinct_names() {
    let source = SourceDirState::Listed(vec![file(&["a.txt"], b"one")]);
    let p1 = create_savedata_backup(9, &source, "root", TS).expect("first");
    let p2 = create_savedata_backup(9, &source, "root", TS + 1).expect("second");
    assert_ne!(p1.info.folder_name, p2.info.folder_name);
}

#[test]
fn delete_backup_missing_fails() {
    let r = delete_savedata_backup("root/game_1/x.7z", HostSeparator::Backslash, false);
    assert!(matches!(r, Err(BackupError::BackupNotFound)));
}

#[test]
fn delete_backup_normalizes_separators() {
    let r = delete_savedata_backup("root/game_1/x.7z", HostSeparator::Backslash, true)
        .expect("delete");
    assert_eq!(r, "root\\game_1\\x.7z");
    let r = delete_savedata_backup("root\\game_1\\x.7z", HostSeparator::Slash, true)
        .expect("delete");
    assert_eq!(r, "root/game_1/x.7z");
}

#[test]
fn error_messages() {
    assert_eq!(
        BackupError::SourceInvalid.message(),
        "source save folder is missing or not a directory"
    );
    assert_eq!(
        BackupError::BackupNotFound.message(),
        "backup file does not exist"
    );
    assert_eq!(
        BackupError::DirResolutionFailed.message(),
        "could not resolve the application directory"
    );
    assert_eq!(
        BackupError::DestinationExists.message(),
        "destination already exists"
    );
    assert_eq!(
        BackupError::StatsCorrupt.message(),
        "stored daily statistics are malformed"
    );
    assert_eq!(
        BackupError::ArchiveCreationFailed("boom".to_string()).message(),
        "boom"
    );
}
