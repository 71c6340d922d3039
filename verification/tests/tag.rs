use awabancha::tag::{TagInfo, sort_tags};

#[test]
fn test_tag_info_creation() {
    let tag = TagInfo {
        name: "v1.0.0".to_string(),
        sha: "abc123def456".to_string(),
        message: Some("Release version 1.0.0".to_string()),
        is_annotated: true,
    };

    assert_eq!(tag.name, "v1.0.0");
    assert_eq!(tag.sha, "abc123def456");
    assert_eq!(tag.message, Some("Release version 1.0.0".to_string()));
    assert!(tag.is_annotated);
}

#[test]
fn test_tag_info_lightweight() {
    let tag = TagInfo {
        name: "v0.1.0".to_string(),
        sha: "xyz789".to_string(),
        message: None,
        is_annotated: false,
    };

    assert_eq!(tag.name, "v0.1.0");
    assert!(tag.message.is_none());
    assert!(!tag.is_annotated);
}

#[test]
fn test_tag_info_clone() {
    let tag = TagInfo {
        name: "v1.0.0".to_string(),
        sha: "abc123".to_string(),
        message: Some("Test".to_string()),
        is_annotated: true,
    };

    let cloned = tag.clone();
    assert_eq!(tag.name, cloned.name);
    assert_eq!(tag.sha, cloned.sha);
    assert_eq!(tag.message, cloned.message);
    assert_eq!(tag.is_annotated, cloned.is_annotated);
}

fn tag(name: &str) -> TagInfo {
    TagInfo {
        name: name.to_string(),
        sha: "abc".to_string(),
        message: None,
        is_annotated: false,
    }
}

#[test]
fn test_sort_tags_alphabetical() {
    let sorted = sort_tags(vec![tag("v2.0"), tag("v0.9"), tag("v1.5")]);
    let names: Vec<&str> = sorted.iter().map(|t| t.name.as_str()).collect();
    assert_eq!(names, vec!["v0.9", "v1.5", "v2.0"]);
}

#[test]
fn test_sort_tags_keeps_all_entries() {
    let sorted = sort_tags(vec![tag("b"), tag("a"), tag("a")]);
    assert_eq!(sorted.len(), 3);
    assert_eq!(sorted[0].name, "a");
    assert_eq!(sorted[1].name, "a");
    assert_eq!(sorted[2].name, "b");
}
