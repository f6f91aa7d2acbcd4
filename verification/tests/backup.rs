//! Backups of the hosts file.
use mhost::apply::backup::{
    backup_file_name, backups_to_remove, latest_backup, names_a_backup, new_backup_name,
    prune_outcome, BackupFile, MAX_BACKUPS,
};
use mhost::error::{ApplyError, MhostError};

fn backups(n: i128) -> Vec<BackupFile> {
    (0..n)
        .map(|i| BackupFile { name: format!("hosts-202401{:02}_120000.bak", i), modified: i })
        .collect()
}

fn pruned(files: &Vec<BackupFile>) -> Vec<String> {
    let gone = backups_to_remove(files);
    files
        .iter()
        .enumerate()
        .filter(|(i, _)| !gone.contains(i))
        .map(|(_, f)| f.name.clone())
        .collect()
}

#[test]
fn test_prune_old_backups_removes_oldest() {
    let before = backups(15);
    assert_eq!(before.len(), 15);
    assert_eq!(pruned(&before).len(), MAX_BACKUPS);
}

#[test]
fn test_prune_old_backups_under_limit_is_noop() {
    assert_eq!(pruned(&backups(5)).len(), 5);
}

#[test]
fn test_prune_old_backups_retains_10_latest() {
    let names = pruned(&backups(12));
    assert_eq!(names.len(), MAX_BACKUPS);
    assert!(!names.contains(&"hosts-20240100_120000.bak".to_string()));
    assert!(!names.contains(&"hosts-20240101_120000.bak".to_string()));
    assert!(names.contains(&"hosts-20240111_120000.bak".to_string()));
}

#[test]
fn test_multiple_backups_sorted_by_mtime() {
    let mut files = backups(3);
    files.reverse();
    let i = latest_backup(&files).unwrap();
    assert_eq!(files[i].name, "hosts-20240102_120000.bak");
}

#[test]
fn tests_test_rollback_no_backup_fails() {
    let files = vec![BackupFile { name: "notes.txt".to_string(), modified: 9 }];
    assert!(latest_backup(&files).is_err());
}

#[test]
fn other_files_are_not_pruned() {
    let mut files = backups(11);
    files.push(BackupFile { name: "notes.txt".to_string(), modified: -5 });
    let names = pruned(&files);
    assert_eq!(names.len(), MAX_BACKUPS + 1);
    assert!(names.contains(&"notes.txt".to_string()));
}

#[test]
fn a_backup_is_named_by_its_second() {
    assert_eq!(backup_file_name(0), "hosts-19700101_000000.bak");
    assert_eq!(backup_file_name(1_704_067_199), "hosts-20231231_235959.bak");
}

#[test]
fn the_names_of_backups_are_known() {
    assert!(names_a_backup(&backup_file_name(12345)));
    assert!(names_a_backup(&new_backup_name()));
    assert!(!names_a_backup("hosts-1.txt"));
    assert!(!names_a_backup("old-hosts-1.bak"));
}

#[test]
fn pruning_fails_only_if_nothing_could_be_removed() {
    assert_eq!(prune_outcome(3, 0), Ok(()));
    assert_eq!(prune_outcome(3, 2), Ok(()));
    assert_eq!(
        prune_outcome(3, 3),
        Err(MhostError::Apply(ApplyError::BackupFailed(
            "failed to prune old backups: 3 deletions failed".to_string()
        )))
    );
}
