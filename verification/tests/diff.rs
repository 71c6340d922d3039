use awabancha::diff::{DiffLine, DiffLineType, FileDiff, classify_line};

#[test]
fn test_diff_line_type_equality() {
    assert_eq!(DiffLineType::Context, DiffLineType::Context);
    assert_eq!(DiffLineType::Addition, DiffLineType::Addition);
    assert_eq!(DiffLineType::Deletion, DiffLineType::Deletion);
    assert_eq!(DiffLineType::Header, DiffLineType::Header);
    assert_ne!(DiffLineType::Addition, DiffLineType::Deletion);
}

#[test]
fn test_diff_line_creation() {
    let line = DiffLine {
        content: "+ added line".to_string(),
        line_type: DiffLineType::Addition,
        old_lineno: None,
        new_lineno: Some(10),
    };

    assert_eq!(line.content, "+ added line");
    assert_eq!(line.line_type, DiffLineType::Addition);
    assert!(line.old_lineno.is_none());
    assert_eq!(line.new_lineno, Some(10));
}

#[test]
fn test_classify_line_markers() {
    assert_eq!(classify_line('+'), DiffLineType::Addition);
    assert_eq!(classify_line('-'), DiffLineType::Deletion);
    assert_eq!(classify_line(' '), DiffLineType::Context);
    assert_eq!(classify_line('H'), DiffLineType::Header);
    assert_eq!(classify_line('F'), DiffLineType::Header);
}

fn line(origin: char, content: &str) -> DiffLine {
    DiffLine {
        content: content.to_string(),
        line_type: classify_line(origin),
        old_lineno: None,
        new_lineno: None,
    }
}

#[test]
fn test_file_diff_counts() {
    let diff = FileDiff::from_lines(
        "src/lib.rs".to_string(),
        None,
        vec![
            line('H', "diff header"),
            line(' ', "context"),
            line('+', "added one"),
            line('+', "added two"),
            line('-', "removed"),
        ],
    );
    assert_eq!(diff.path, "src/lib.rs");
    assert_eq!(diff.additions, 2);
    assert_eq!(diff.deletions, 1);
    assert_eq!(diff.lines.len(), 5);
}

#[test]
fn test_file_diff_empty() {
    let diff = FileDiff::from_lines("empty.rs".to_string(), None, vec![]);
    assert_eq!(diff.additions, 0);
    assert_eq!(diff.deletions, 0);
    assert!(diff.lines.is_empty());
}
