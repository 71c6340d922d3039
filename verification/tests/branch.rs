use awabancha::branch::{BranchInfo, BranchKind, local_branches, remote_branches, sort_branches};

fn branch(name: &str, is_head: bool, kind: BranchKind) -> BranchInfo {
    BranchInfo {
        name: name.to_string(),
        is_head,
        upstream: None,
        branch_type: kind,
    }
}

#[test]
fn test_branch_kind_equality() {
    assert_eq!(BranchKind::Local, BranchKind::Local);
    assert_eq!(BranchKind::Remote, BranchKind::Remote);
    assert_ne!(BranchKind::Local, BranchKind::Remote);
}

#[test]
fn test_branch_kind_clone() {
    let kind = BranchKind::Local;
    let cloned = kind;
    assert_eq!(kind, cloned);
}

#[test]
fn test_branch_info_creation() {
    let branch = BranchInfo {
        name: "main".to_string(),
        is_head: true,
        upstream: Some("origin/main".to_string()),
        branch_type: BranchKind::Local,
    };

    assert_eq!(branch.name, "main");
    assert!(branch.is_head);
    assert_eq!(branch.upstream, Some("origin/main".to_string()));
    assert_eq!(branch.branch_type, BranchKind::Local);
}

#[test]
fn test_remote_branch_info() {
    let branch = BranchInfo {
        name: "origin/main".to_string(),
        is_head: false,
        upstream: None,
        branch_type: BranchKind::Remote,
    };

    assert!(!branch.is_head);
    assert!(branch.upstream.is_none());
    assert_eq!(branch.branch_type, BranchKind::Remote);
}

#[test]
fn test_branch_info_clone() {
    let branch = BranchInfo {
        name: "feature".to_string(),
        is_head: false,
        upstream: Some("origin/feature".to_string()),
        branch_type: BranchKind::Local,
    };

    let cloned = branch.clone();
    assert_eq!(branch.name, cloned.name);
    assert_eq!(branch.is_head, cloned.is_head);
    assert_eq!(branch.upstream, cloned.upstream);
    assert_eq!(branch.branch_type, cloned.branch_type);
}

#[test]
fn test_sort_branches_order() {
    let sorted = sort_branches(vec![
        branch("zeta", false, BranchKind::Local),
        branch("master", false, BranchKind::Local),
        branch("alpha", false, BranchKind::Local),
        branch("feature", true, BranchKind::Local),
        branch("main", false, BranchKind::Local),
        branch("dev", false, BranchKind::Local),
    ]);
    let names: Vec<&str> = sorted.iter().map(|b| b.name.as_str()).collect();
    assert_eq!(names, vec!["feature", "main", "master", "dev", "alpha", "zeta"]);
}

#[test]
fn test_sort_branches_alphabetical_among_plain() {
    let sorted = sort_branches(vec![
        branch("c", false, BranchKind::Local),
        branch("a", false, BranchKind::Local),
        branch("b", false, BranchKind::Local),
    ]);
    let names: Vec<&str> = sorted.iter().map(|b| b.name.as_str()).collect();
    assert_eq!(names, vec!["a", "b", "c"]);
}

#[test]
fn test_local_and_remote_filters() {
    let all = vec![
        branch("main", true, BranchKind::Local),
        branch("origin/main", false, BranchKind::Remote),
        branch("feature", false, BranchKind::Local),
    ];
    let locals = local_branches(&all);
    assert_eq!(locals.len(), 2);
    assert!(locals.iter().all(|b| b.branch_type == BranchKind::Local));
    let remotes = remote_branches(&all);
    assert_eq!(remotes.len(), 1);
    assert_eq!(remotes[0].name, "origin/main");
}
