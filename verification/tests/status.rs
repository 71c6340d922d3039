use awabancha::status::{FileStatus, FileStatusType, StatusFlags, sort_statuses};

fn no_flags() -> StatusFlags {
    StatusFlags {
        index_new: false,
        index_modified: false,
        index_deleted: false,
        index_renamed: false,
        wt_new: false,
        wt_modified: false,
        wt_deleted: false,
        wt_renamed: false,
        conflicted: false,
    }
}

#[test]
fn test_file_status_creation() {
    let status = FileStatus {
        path: "src/main.rs".to_string(),
        status: FileStatusType::Modified,
        staged: true,
        old_path: None,
    };

    assert_eq!(status.path, "src/main.rs");
    assert_eq!(status.status, FileStatusType::Modified);
    assert!(status.staged);
    assert!(status.old_path.is_none());
}

#[test]
fn test_file_status_renamed() {
    let status = FileStatus {
        path: "new_name.rs".to_string(),
        status: FileStatusType::Renamed,
        staged: true,
        old_path: Some("old_name.rs".to_string()),
    };

    assert_eq!(status.path, "new_name.rs");
    assert_eq!(status.old_path, Some("old_name.rs".to_string()));
}

#[test]
fn test_file_status_clone() {
    let status = FileStatus {
        path: "test.rs".to_string(),
        status: FileStatusType::Added,
        staged: false,
        old_path: Some("old.rs".to_string()),
    };

    let cloned = status.clone();
    assert_eq!(status.path, cloned.path);
    assert_eq!(status.status, cloned.status);
    assert_eq!(status.staged, cloned.staged);
    assert_eq!(status.old_path, cloned.old_path);
}

#[test]
fn test_status_color() {
    let added = FileStatus {
        path: "test.rs".to_string(),
        status: FileStatusType::Added,
        staged: true,
        old_path: None,
    };
    assert_eq!(added.status_color(), 0xa6e3a1); // Green

    let modified = FileStatus {
        path: "test.rs".to_string(),
        status: FileStatusType::Modified,
        staged: false,
        old_path: None,
    };
    assert_eq!(modified.status_color(), 0xfab387); // Orange

    let deleted = FileStatus {
        path: "test.rs".to_string(),
        status: FileStatusType::Deleted,
        staged: true,
        old_path: None,
    };
    assert_eq!(deleted.status_color(), 0xf38ba8); // Red

    let renamed = FileStatus {
        path: "new.rs".to_string(),
        status: FileStatusType::Renamed,
        staged: true,
        old_path: Some("old.rs".to_string()),
    };
    assert_eq!(renamed.status_color(), 0x89b4fa); // Blue

    let untracked = FileStatus {
        path: "test.rs".to_string(),
        status: FileStatusType::Untracked,
        staged: false,
        old_path: None,
    };
    assert_eq!(untracked.status_color(), 0x9399b2); // Gray

    let conflicted = FileStatus {
        path: "test.rs".to_string(),
        status: FileStatusType::Conflicted,
        staged: false,
        old_path: None,
    };
    assert_eq!(conflicted.status_color(), 0xf9e2af); // Yellow
}

#[test]
fn test_status_char() {
    let test_cases = [
        (FileStatusType::Added, 'A'),
        (FileStatusType::Modified, 'M'),
        (FileStatusType::Deleted, 'D'),
        (FileStatusType::Renamed, 'R'),
        (FileStatusType::Untracked, '?'),
        (FileStatusType::Conflicted, '!'),
    ];

    for (status_type, expected_char) in test_cases {
        let file_status = FileStatus {
            path: "test.rs".to_string(),
            status: status_type,
            staged: false,
            old_path: None,
        };
        assert_eq!(file_status.status_char(), expected_char);
    }
}

#[test]
fn test_file_status_type_equality() {
    assert_eq!(FileStatusType::Added, FileStatusType::Added);
    assert_ne!(FileStatusType::Added, FileStatusType::Modified);
}

#[test]
fn test_sort_statuses_staged_first() {
    let entries = vec![
        FileStatus {
            path: "aaa.rs".to_string(),
            status: FileStatusType::Untracked,
            staged: false,
            old_path: None,
        },
        FileStatus {
            path: "zzz.rs".to_string(),
            status: FileStatusType::Added,
            staged: true,
            old_path: None,
        },
    ];
    let sorted = sort_statuses(entries);
    assert_eq!(sorted.len(), 2);
    assert!(sorted[0].staged);
    assert!(!sorted[1].staged);
}

#[test]
fn test_from_scan_staged_and_unstaged() {
    let mut flags = no_flags();
    flags.index_new = true;
    flags.wt_modified = true;
    let statuses = FileStatus::from_scan(vec![(
        "new_file.txt".to_string(),
        flags,
        None,
        None,
    )]);
    assert_eq!(statuses.len(), 2);
    assert_eq!(statuses[0].status, FileStatusType::Added);
    assert!(statuses[0].staged);
    assert_eq!(statuses[1].status, FileStatusType::Modified);
    assert!(!statuses[1].staged);
}

#[test]
fn test_from_scan_untracked_file() {
    let mut flags = no_flags();
    flags.wt_new = true;
    let statuses = FileStatus::from_scan(vec![(
        "untracked.txt".to_string(),
        flags,
        None,
        None,
    )]);
    assert_eq!(statuses.len(), 1);
    assert_eq!(statuses[0].path, "untracked.txt");
    assert_eq!(statuses[0].status, FileStatusType::Untracked);
    assert!(!statuses[0].staged);
}

#[test]
fn test_from_scan_renamed_keeps_old_path() {
    let mut flags = no_flags();
    flags.index_renamed = true;
    let statuses = FileStatus::from_scan(vec![(
        "new_name.rs".to_string(),
        flags,
        Some("old_name.rs".to_string()),
        None,
    )]);
    assert_eq!(statuses.len(), 1);
    assert_eq!(statuses[0].status, FileStatusType::Renamed);
    assert_eq!(statuses[0].old_path, Some("old_name.rs".to_string()));
}

#[test]
fn test_from_scan_sorting() {
    let mut staged = no_flags();
    staged.index_new = true;
    let mut untracked = no_flags();
    untracked.wt_new = true;
    let statuses = FileStatus::from_scan(vec![
        ("aaa_untracked.txt".to_string(), untracked, None, None),
        ("staged.txt".to_string(), staged, None, None),
    ]);
    assert_eq!(statuses.len(), 2);
    // Staged comes first regardless of alphabetical order.
    assert!(statuses[0].staged);
    assert!(!statuses[1].staged);
}
