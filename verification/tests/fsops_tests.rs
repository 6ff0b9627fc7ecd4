use reina_backup::fsops::{
    delete_file_plan, game_cover_files, move_backup_folder, DeleteFilePlan, MoveObservation,
};

fn ob(
    old_exists: bool,
    parent_create_ok: bool,
    new_exists: bool,
    rename_ok: bool,
    copy_ok: bool,
    remove_old_ok: bool,
) -> MoveObservation {
    MoveObservation { old_exists, parent_create_ok, new_exists, rename_ok, copy_ok, remove_old_ok }
}

#[test]
fn move_refuses_existing_destination() {
    // A pre-existing destination always fails, and nothing is touched.
    let r = move_backup_folder(&ob(true, true, true, false, false, false));
    assert!(!r.success);
    assert_eq!(
        r.message,
        "a backup folder already exists at the destination, resolve it manually"
    );
}

#[test]
fn move_missing_source_is_success() {
    let r = move_backup_folder(&ob(false, false, false, false, false, false));
    assert!(r.success);
    assert_eq!(r.message, "old backup folder does not exist, nothing to move");
}

#[test]
fn move_by_rename() {
    let r = move_backup_folder(&ob(true, true, false, true, false, false));
    assert!(r.success);
    assert_eq!(r.message, "backup folder moved");
}

#[test]
fn move_by_copy_fallback() {
    let r = move_backup_folder(&ob(true, true, false, false, true, true));
    assert!(r.success);
    assert_eq!(r.message, "backup folder moved (by copying)");
}

#[test]
fn move_partial_copy_reported_distinctly() {
    let r = move_backup_folder(&ob(true, true, false, false, true, false));
    assert!(!r.success);
    assert_eq!(
        r.message,
        "folder copied to the new location, but removing the old folder failed"
    );
}

#[test]
fn move_copy_failure() {
    let r = move_backup_folder(&ob(true, true, false, false, false, false));
    assert!(!r.success);
    assert_eq!(r.message, "moving the folder failed");
}

#[test]
fn move_parent_creation_failure() {
    let r = move_backup_folder(&ob(true, false, false, false, false, false));
    assert!(!r.success);
    assert_eq!(r.message, "could not create the destination directory");
}

#[test]
fn delete_file_is_idempotent_on_missing() {
    assert!(matches!(delete_file_plan(false), DeleteFilePlan::AlreadyAbsent));
    assert!(matches!(delete_file_plan(true), DeleteFilePlan::Remove));
}

#[test]
fn cover_selection_matches_exact_game_prefix() {
    let names: Vec<String> = vec![
        "cover_5_a.jpg".to_string(),
        "cover_55_b.jpg".to_string(),
        "other.png".to_string(),
        "cover_5_.png".to_string(),
        "cover_".to_string(),
    ];
    let picked = game_cover_files(&names, 5);
    assert_eq!(picked, vec!["cover_5_a.jpg".to_string(), "cover_5_.png".to_string()]);
    let none = game_cover_files(&names, 7);
    assert!(none.is_empty());
}
