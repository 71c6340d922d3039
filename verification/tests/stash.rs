use awabancha::stash::StashEntry;

#[test]
fn test_stash_entry_creation() {
    let entry = StashEntry {
        index: 0,
        message: "WIP: feature work".to_string(),
        oid: "abc123".to_string(),
    };

    assert_eq!(entry.index, 0);
    assert_eq!(entry.message, "WIP: feature work");
    assert_eq!(entry.oid, "abc123");
}

#[test]
fn test_stash_entry_clone() {
    let entry = StashEntry {
        index: 1,
        message: "test stash".to_string(),
        oid: "def456".to_string(),
    };

    let cloned = entry.clone();
    assert_eq!(entry.index, cloned.index);
    assert_eq!(entry.message, cloned.message);
    assert_eq!(entry.oid, cloned.oid);
}
