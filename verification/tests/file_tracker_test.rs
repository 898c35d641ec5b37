use uv_migrator::utils::file_ops::{rollback_action, FileChange, FileTracker, FileTrackerGuard, RollbackAction};

#[test]
fn test_track_new_file() {
    let mut guard = FileTrackerGuard::new();
    guard.track_file("project/test.txt", Some(b"test content".to_vec()));
    assert!(guard.inner.is_tracked("project/test.txt"));
}

#[test]
fn test_track_same_file_twice() {
    let mut guard = FileTrackerGuard::new();
    guard.track_file("project/test.txt", Some(b"first".to_vec()));
    guard.track_file("project/test.txt", Some(b"second".to_vec()));
    assert_eq!(guard.inner.rollback_order(), vec!["project/test.txt".to_string()]);
    match guard.inner.change_of("project/test.txt") {
        Some(FileChange::Created { original_existed: true, original_content: Some(c) }) => assert_eq!(c, &b"first".to_vec()),
        _ => panic!("the first record stays"),
    }
}

#[test]
fn test_track_rename() {
    let mut guard = FileTrackerGuard::new();
    let result = guard.track_rename("project/test.txt", "project/renamed.txt", true);
    assert!(result.is_ok());
    assert!(matches!(
        guard.inner.change_of("project/renamed.txt"),
        Some(FileChange::Renamed { source_path }) if source_path == "project/test.txt"
    ));
}

#[test]
fn test_track_rename_nonexistent_file() {
    let nonexistent = "project/nonexistent.txt";
    let new_path = "project/renamed.txt";
    let mut guard = FileTrackerGuard::new();

    // The source does not exist on disk.
    let result = guard.track_rename(nonexistent, new_path, false);
    assert!(result.is_err());
    assert!(result.unwrap_err().contains("does not exist"));
}

#[test]
fn track_rename_of_missing_source_tracks_nothing() {
    let mut guard = FileTrackerGuard::new();
    let e = guard.track_rename("project/nonexistent.txt", "project/renamed.txt", false).unwrap_err();
    assert_eq!(e.message(), "File operation error on project/nonexistent.txt: Source file does not exist");
    assert!(!guard.inner.is_tracked("project/renamed.txt"));
}

#[test]
fn test_multiple_operations() {
    let mut guard = FileTrackerGuard::new();
    guard.track_file("file1.txt", Some(b"content1".to_vec()));
    guard.track_file("file2.txt", Some(b"content2".to_vec()));
    assert!(guard.track_rename("file1.txt", "file3.txt", true).is_ok());
    assert_eq!(
        guard.inner.rollback_order(),
        vec!["file3.txt".to_string(), "file2.txt".to_string(), "file1.txt".to_string()]
    );
}

#[test]
fn test_rollback_actions() {
    let existed = FileChange::created_with_content(b"original".to_vec());
    assert!(matches!(rollback_action(&existed, true, false), RollbackAction::Restore(c) if c == b"original".to_vec()));
    let created = FileChange::new_created();
    assert!(matches!(rollback_action(&created, true, false), RollbackAction::Remove));
    assert!(matches!(rollback_action(&created, false, false), RollbackAction::Nothing));
    let renamed = FileChange::renamed("pyproject.toml".to_string());
    assert!(matches!(rollback_action(&renamed, true, false), RollbackAction::MoveBack(s) if s == "pyproject.toml"));
    assert!(matches!(rollback_action(&renamed, true, true), RollbackAction::CopyBack(s) if s == "pyproject.toml"));
    assert!(matches!(rollback_action(&renamed, false, true), RollbackAction::Nothing));
}

#[test]
fn test_rollback_on_drop_conditions() {
    let mut t = FileTracker::new();
    assert!(!t.should_rollback_on_drop());
    t.track_file("a", None);
    assert!(!t.should_rollback_on_drop());
    t.force_rollback();
    assert!(t.should_rollback_on_drop());
    t.clear();
    assert!(!t.should_rollback_on_drop());
    let mut off = FileTracker::new_with_restore(false);
    off.track_file("a", None);
    off.force_rollback();
    assert!(!off.should_rollback_on_drop());
}
