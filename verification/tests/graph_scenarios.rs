use awabancha::graph::{CommitGraphData, CommitInfo, EdgeType, palette_color};
use awabancha::walk::RawCommit;

fn commit(sha: &str, message: &str, parents: &[&str]) -> CommitInfo {
    CommitInfo {
        sha: sha.to_string(),
        short_sha: sha.chars().take(7).collect(),
        message: message.to_string(),
        author: "Author".to_string(),
        email: "author@example.com".to_string(),
        timestamp: 0,
        parents: parents.iter().map(|p| p.to_string()).collect(),
        branch: None,
        branches: vec![],
        remotes: vec![],
        tags: vec![],
    }
}

fn sha(label: &str) -> String {
    // A fixed-width, hex-looking identifier derived from a short label.
    format!("{:0<40}", label)
}

// Scenario: linear history, three commits in one lineage, newest first.
#[test]
fn test_linear_history_single_lane() {
    let c1 = sha("c1");
    let c2 = sha("c2");
    let c3 = sha("c3");
    let graph = CommitGraphData::from_records(vec![
        commit(&c3, "third", &[&c2]),
        commit(&c2, "second", &[&c1]),
        commit(&c1, "first", &[]),
    ]);

    assert_eq!(graph.nodes.len(), 3);
    assert!(graph.nodes.iter().all(|n| n.column == 0));
    assert_eq!(graph.edges.len(), 2);
    assert!(graph.edges.iter().all(|e| e.edge_type == EdgeType::Linear));
    assert_eq!(graph.max_column, 0);
}

// Scenario: a merge commit. Every edge leaving it is a merge edge.
#[test]
fn test_merge_commit_all_edges_merge() {
    let a = sha("a");
    let b = sha("b");
    let c = sha("c");
    let d = sha("d");
    let graph = CommitGraphData::from_records(vec![
        commit(&d, "merge feature", &[&b, &c]),
        commit(&c, "feature work", &[&b]),
        commit(&b, "base", &[&a]),
        commit(&a, "root", &[]),
    ]);

    let d_edges: Vec<_> = graph.edges.iter().filter(|e| e.from_sha == d).collect();
    assert_eq!(d_edges.len(), 2);
    assert!(d_edges.iter().all(|e| e.edge_type == EdgeType::Merge));
}

// Scenario: two children of one commit diverge without a merge.
#[test]
fn test_diverging_children_take_different_columns() {
    let a = sha("a");
    let b = sha("b");
    let c = sha("c");
    let e = sha("e");
    let graph = CommitGraphData::from_records(vec![
        commit(&c, "main tip", &[&b]),
        commit(&e, "feature tip", &[&b]),
        commit(&b, "base", &[&a]),
        commit(&a, "root", &[]),
    ]);

    let col_c = graph.nodes.iter().find(|n| n.commit.sha == c).unwrap().column;
    let col_e = graph.nodes.iter().find(|n| n.commit.sha == e).unwrap().column;
    assert_ne!(col_c, col_e);
    // Each child's edge to the shared parent keeps that child's own column,
    // so both single-parent edges classify by column equality.
    for edge in graph.edges.iter().filter(|e| e.to_sha == b) {
        if edge.to_column == edge.from_column {
            assert_eq!(edge.edge_type, EdgeType::Linear);
        } else {
            assert_eq!(edge.edge_type, EdgeType::Branch);
        }
    }
}

// Scenario: an empty window lays out to nothing, not an error.
#[test]
fn test_empty_window_builds_empty_graph() {
    let graph = CommitGraphData::build(Vec::<RawCommit>::new(), &vec![], &vec![], &vec![]);
    assert!(graph.nodes.is_empty());
    assert!(graph.edges.is_empty());
    assert_eq!(graph.max_column, 0);
}

// Determinism: identical windows lay out identically.
#[test]
fn test_layout_deterministic() {
    let build = || {
        let a = sha("a");
        let b = sha("b");
        let c = sha("c");
        let d = sha("d");
        CommitGraphData::from_records(vec![
            commit(&d, "merge", &[&b, &c]),
            commit(&c, "feature", &[&b]),
            commit(&b, "base", &[&a]),
            commit(&a, "root", &[]),
        ])
    };
    let g1 = build();
    let g2 = build();
    assert_eq!(g1.nodes.len(), g2.nodes.len());
    assert_eq!(g1.edges.len(), g2.edges.len());
    assert_eq!(g1.max_column, g2.max_column);
    for (n1, n2) in g1.nodes.iter().zip(g2.nodes.iter()) {
        assert_eq!(n1.column, n2.column);
        assert_eq!(n1.row, n2.row);
        assert_eq!(n1.color, n2.color);
    }
    for (e1, e2) in g1.edges.iter().zip(g2.edges.iter()) {
        assert_eq!(e1.from_column, e2.from_column);
        assert_eq!(e1.to_column, e2.to_column);
        assert_eq!(e1.edge_type, e2.edge_type);
        assert_eq!(e1.color, e2.color);
    }
}

// First-parent continuity: the edge to a first parent keeps the column.
#[test]
fn test_first_parent_edge_keeps_column() {
    let a = sha("a");
    let b = sha("b");
    let c = sha("c");
    let d = sha("d");
    let graph = CommitGraphData::from_records(vec![
        commit(&d, "merge", &[&b, &c]),
        commit(&c, "feature", &[&b]),
        commit(&b, "base", &[&a]),
        commit(&a, "root", &[]),
    ]);
    for node in &graph.nodes {
        if let Some(first_parent) = node.commit.parents.first() {
            let edge = graph
                .edges
                .iter()
                .find(|e| e.from_sha == node.commit.sha && &e.to_sha == first_parent)
                .unwrap();
            assert_eq!(edge.to_column, edge.from_column);
        }
    }
}

// Row ordering: rows are 0, 1, 2, ... in walk order.
#[test]
fn test_rows_count_up_without_gaps() {
    let a = sha("a");
    let b = sha("b");
    let c = sha("c");
    let graph = CommitGraphData::from_records(vec![
        commit(&c, "third", &[&b]),
        commit(&b, "second", &[&a]),
        commit(&a, "first", &[]),
    ]);
    for (i, node) in graph.nodes.iter().enumerate() {
        assert_eq!(node.row, i);
    }
}

// max_column equals the largest column any node or edge touches.
#[test]
fn test_max_column_matches_columns() {
    let a = sha("a");
    let b = sha("b");
    let c = sha("c");
    let d = sha("d");
    let graph = CommitGraphData::from_records(vec![
        commit(&d, "merge", &[&b, &c]),
        commit(&c, "feature", &[&b]),
        commit(&b, "base", &[&a]),
        commit(&a, "root", &[]),
    ]);
    let node_max = graph.nodes.iter().map(|n| n.column).max().unwrap_or(0);
    let edge_max = graph
        .edges
        .iter()
        .map(|e| e.from_column.max(e.to_column))
        .max()
        .unwrap_or(0);
    assert_eq!(graph.max_column, node_max.max(edge_max));
    assert_eq!(graph.max_column, 1);
}

// Edge count: one edge per parent relationship.
#[test]
fn test_edge_count_equals_parent_count() {
    let a = sha("a");
    let b = sha("b");
    let c = sha("c");
    let d = sha("d");
    let graph = CommitGraphData::from_records(vec![
        commit(&d, "merge", &[&b, &c]),
        commit(&c, "feature", &[&b]),
        commit(&b, "base", &[&a]),
        commit(&a, "root", &[]),
    ]);
    for node in &graph.nodes {
        let outgoing = graph
            .edges
            .iter()
            .filter(|e| e.from_row == node.row)
            .count();
        assert_eq!(outgoing, node.commit.parents.len());
    }
}

// Color cycling: columns eight lanes apart share a color.
#[test]
fn test_palette_cycles_every_eight_columns() {
    for c in 0..16usize {
        assert_eq!(palette_color(c), palette_color(c + 8));
    }
    assert_ne!(palette_color(0), palette_color(1));
    assert_eq!(palette_color(0), 0x89b4fa);
    assert_eq!(palette_color(7), 0xf5c2e7);
    assert_eq!(palette_color(9), 0xa6e3a1);
}

// Node and edge colors come from their own column's palette entry.
#[test]
fn test_colors_follow_columns() {
    let a = sha("a");
    let b = sha("b");
    let c = sha("c");
    let d = sha("d");
    let graph = CommitGraphData::from_records(vec![
        commit(&d, "merge", &[&b, &c]),
        commit(&c, "feature", &[&b]),
        commit(&b, "base", &[&a]),
        commit(&a, "root", &[]),
    ]);
    for node in &graph.nodes {
        assert_eq!(node.color, palette_color(node.column));
    }
    for edge in &graph.edges {
        assert_eq!(edge.color, palette_color(edge.from_column));
    }
}

// Pagination: a later page's nodes and edges concatenate onto the first,
// and the first page's highest column is kept.
#[test]
fn test_append_page_concatenates() {
    let a = sha("a");
    let b = sha("b");
    let c = sha("c");
    let mut first = CommitGraphData::from_records(vec![
        commit(&c, "third", &[&b]),
        commit(&b, "second", &[&a]),
    ]);
    let second = CommitGraphData::from_records(vec![commit(&a, "first", &[])]);
    first.append_page(second);
    assert_eq!(first.nodes.len(), 3);
    assert_eq!(first.edges.len(), 2);
    assert_eq!(first.max_column, 0);
    assert_eq!(first.nodes[2].commit.sha, a);
}

// An unvisited parent's edge points one row past its child, toward the
// window boundary.
#[test]
fn test_edge_to_unvisited_parent_points_past_window() {
    let missing = sha("missing");
    let tip = sha("tip");
    let graph = CommitGraphData::from_records(vec![commit(&tip, "tip", &[&missing])]);
    assert_eq!(graph.edges.len(), 1);
    assert_eq!(graph.edges[0].to_row, 1);
}
