//! Proved properties of the lane-assignment engine.
//!
//! The statements are over `spec_layout`, which `CommitGraphData::from_records`
//! provably computes, so each of them holds of every layout the library
//! returns.

use vstd::prelude::*;
use crate::graph::{
    CommitView, EdgeType, EdgeView, LayoutState, NodeView, classify_edge, commit_column,
    layout_prefix, parents_prefix, place_commit, place_parent, spec_layout, spec_palette_color,
};

verus! {

/// Number of edges emitted for the first `n` commits: one per parent.
pub open spec fn edges_before(recs: Seq<CommitView>, n: int) -> nat
    decreases n,
{
    if n <= 0 {
        0
    } else {
        edges_before(recs, n - 1) + recs[n - 1].parents.len()
    }
}

/// Rows recorded after the first `n` commits: each identifier maps to the
/// row of its latest visit.
pub open spec fn rows_before(recs: Seq<CommitView>, n: int) -> Map<Seq<char>, nat>
    decreases n,
{
    if n <= 0 {
        Map::empty()
    } else {
        rows_before(recs, n - 1).insert(recs[n - 1].sha, (n - 1) as nat)
    }
}

/// Index of the edge for parent `kk` of the commit in row `r`.
pub open spec fn edge_index(recs: Seq<CommitView>, r: int, kk: int) -> int {
    edges_before(recs, r) + kk
}

/// An index offset from a base position.
pub open spec fn offset_index(base: int, kk: int) -> int {
    base + kk
}

/// What holds of the edge emitted for parent `kk` of a commit sitting at
/// `column` in row `r`.
pub open spec fn edge_ok(
    e: EdgeView,
    rec: CommitView,
    r: nat,
    column: nat,
    kk: int,
    maxc: nat,
    rows: Map<Seq<char>, nat>,
) -> bool {
    &&& e.from_sha == rec.sha
    &&& e.to_sha == rec.parents[kk]
    &&& e.from_row == r
    &&& e.from_column == column
    &&& e.color == spec_palette_color(column)
    &&& e.edge_type == classify_edge(rec.parents.len(), column, e.to_column)
    &&& (kk == 0 ==> e.to_column == column)
    &&& e.to_column <= maxc
    &&& e.to_row == (if rows.contains_key(e.to_sha) {
        rows[e.to_sha]
    } else {
        r + 1
    })
}

/// What holds of the node emitted for the commit in row `r`.
pub open spec fn node_ok(nv: NodeView, rec: CommitView, r: int, maxc: nat) -> bool {
    &&& nv.commit == rec
    &&& nv.row == r
    &&& nv.color == spec_palette_color(nv.column)
    &&& nv.column <= maxc
}

proof fn lemma_parents_prefix(st1: LayoutState, rec: CommitView, r: nat, column: nat, k: int)
    requires
        0 <= k <= rec.parents.len(),
        column <= st1.max_column,
    ensures
        ({
            let pp = parents_prefix(st1, rec, r, column, k);
            &&& pp.nodes == st1.nodes
            &&& pp.rows == st1.rows
            &&& pp.edges.len() == st1.edges.len() + k
            &&& forall|j: int| 0 <= j < st1.edges.len() ==> pp.edges[j] == st1.edges[j]
            &&& st1.max_column <= pp.max_column
            &&& forall|kk: int|
                0 <= kk < k ==> edge_ok(
                    pp.edges[#[trigger] offset_index(st1.edges.len() as int, kk)],
                    rec,
                    r,
                    column,
                    kk,
                    pp.max_column,
                    st1.rows,
                )
            &&& (pp.max_column == st1.max_column || exists|kk: int|
                0 <= kk < k && pp.edges[#[trigger] offset_index(st1.edges.len() as int, kk)].to_column
                    == pp.max_column)
        }),
    decreases k,
{
    if k > 0 {
        lemma_parents_prefix(st1, rec, r, column, k - 1);
        let prev = parents_prefix(st1, rec, r, column, k - 1);
        let pp = parents_prefix(st1, rec, r, column, k);
        let ps = place_parent(
            prev.lanes,
            prev.reserved,
            column,
            prev.max_column,
            rec.parents[k - 1],
            k - 1,
        );
        assert(pp.edges == prev.edges.push(pp.edges.last()));
        assert forall|kk: int|
            0 <= kk < k implies edge_ok(
            pp.edges[#[trigger] offset_index(st1.edges.len() as int, kk)],
            rec,
            r,
            column,
            kk,
            pp.max_column,
            st1.rows,
        ) by {
            if kk < k - 1 {
                assert(pp.edges[offset_index(st1.edges.len() as int, kk)] == prev.edges[
                    offset_index(st1.edges.len() as int, kk)]);
                assert(edge_ok(
                    prev.edges[offset_index(st1.edges.len() as int, kk)],
                    rec,
                    r,
                    column,
                    kk,
                    prev.max_column,
                    st1.rows,
                ));
            }
        }
        if pp.max_column != st1.max_column {
            if pp.max_column == prev.max_column {
                let kk0 = choose|kk: int|
                    0 <= kk < k - 1 && prev.edges[#[trigger] offset_index(
                        st1.edges.len() as int,
                        kk,
                    )].to_column == prev.max_column;
                assert(pp.edges[offset_index(st1.edges.len() as int, kk0)].to_column
                    == pp.max_column);
            } else {
                assert(pp.edges[offset_index(st1.edges.len() as int, k - 1)].to_column
                    == pp.max_column);
            }
        }
    }
}

proof fn lemma_edges_before_bound(recs: Seq<CommitView>, r: int, n: int)
    requires
        0 <= r < n,
    ensures
        edges_before(recs, r) + recs[r].parents.len() <= edges_before(recs, n),
    decreases n,
{
    if r < n - 1 {
        lemma_edges_before_bound(recs, r, n - 1);
    }
}

/// Every edge index belongs to some commit and parent position.
proof fn lemma_edge_index_decompose(recs: Seq<CommitView>, n: int, j: int)
    requires
        0 <= n <= recs.len(),
        0 <= j < edges_before(recs, n),
    ensures
        exists|r: int, kk: int|
            0 <= r < n && 0 <= kk < recs[r].parents.len() && j == #[trigger] edge_index(
                recs,
                r,
                kk,
            ),
    decreases n,
{
    if n > 0 {
        if j < edges_before(recs, n - 1) {
            lemma_edge_index_decompose(recs, n - 1, j);
            let (r0, kk0) = choose|r: int, kk: int|
                0 <= r < n - 1 && 0 <= kk < recs[r].parents.len() && j == #[trigger] edge_index(
                    recs,
                    r,
                    kk,
                );
            assert(0 <= r0 < n && 0 <= kk0 < recs[r0].parents.len() && j == edge_index(
                recs,
                r0,
                kk0,
            ));
        } else {
            let r = n - 1;
            let kk = j - edges_before(recs, r);
            assert(0 <= r < n && 0 <= kk < recs[r].parents.len() && j == edge_index(recs, r, kk));
        }
    }
}

/// The shape of every layout prefix: one node per commit in row order, one
/// edge per parent at its computed index, every column bounded by
/// `max_column`, and `max_column` attained whenever anything was laid out.
pub proof fn lemma_layout_invariants(recs: Seq<CommitView>, n: int)
    requires
        0 <= n <= recs.len(),
    ensures
        ({
            let st = layout_prefix(recs, n);
            &&& st.nodes.len() == n
            &&& st.edges.len() == edges_before(recs, n)
            &&& st.rows == rows_before(recs, n)
            &&& forall|r: int| 0 <= r < n ==> node_ok(st.nodes[r], recs[r], r, st.max_column)
            &&& forall|r: int, kk: int|
                0 <= r < n && 0 <= kk < recs[r].parents.len() ==> edge_ok(
                    st.edges[#[trigger] edge_index(recs, r, kk)],
                    recs[r],
                    r as nat,
                    st.nodes[r].column,
                    kk,
                    st.max_column,
                    rows_before(recs, r + 1),
                )
            &&& (n == 0 ==> st.max_column == 0)
            &&& (n > 0 ==> (exists|r: int| 0 <= r < n && st.nodes[r].column == st.max_column)
                || (exists|j: int|
                    0 <= j < st.edges.len() && st.edges[j].to_column == st.max_column))
        }),
    decreases n,
{
    if n > 0 {
        lemma_layout_invariants(recs, n - 1);
        let stp = layout_prefix(recs, n - 1);
        let rec = recs[n - 1];
        let st1 = place_commit(stp, rec, (n - 1) as nat);
        let column = commit_column(stp, rec);
        let st = layout_prefix(recs, n);
        lemma_parents_prefix(st1, rec, (n - 1) as nat, column, rec.parents.len() as int);
        assert(st == parents_prefix(st1, rec, (n - 1) as nat, column, rec.parents.len() as int));

        // Nodes: the old ones persist, the new one is well formed.
        assert(st.nodes == stp.nodes.push(st1.nodes.last()));
        assert forall|r: int| 0 <= r < n implies node_ok(st.nodes[r], recs[r], r, st.max_column) by {
            if r < n - 1 {
                assert(st.nodes[r] == stp.nodes[r]);
                assert(node_ok(stp.nodes[r], recs[r], r, stp.max_column));
            } else {
                assert(st.nodes[r].column == column);
            }
        }

        // Edges: the old ones persist at their indices, the new ones follow
        // the parents lemma.
        assert forall|r: int, kk: int|
            0 <= r < n && 0 <= kk < recs[r].parents.len() implies edge_ok(
            st.edges[#[trigger] edge_index(recs, r, kk)],
            recs[r],
            r as nat,
            st.nodes[r].column,
            kk,
            st.max_column,
            rows_before(recs, r + 1),
        ) by {
            if r < n - 1 {
                lemma_edges_before_bound(recs, r, n - 1);
                assert(edge_index(recs, r, kk) < st1.edges.len());
                assert(st.edges[edge_index(recs, r, kk)] == stp.edges[edge_index(recs, r, kk)]);
                assert(edge_ok(
                    stp.edges[edge_index(recs, r, kk)],
                    recs[r],
                    r as nat,
                    stp.nodes[r].column,
                    kk,
                    stp.max_column,
                    rows_before(recs, r + 1),
                ));
                assert(st.nodes[r].column == stp.nodes[r].column);
            } else {
                assert(edges_before(recs, r) == st1.edges.len());
                assert(st1.rows == rows_before(recs, n));
                assert(edge_ok(
                    st.edges[offset_index(st1.edges.len() as int, kk)],
                    rec,
                    (n - 1) as nat,
                    column,
                    kk,
                    st.max_column,
                    st1.rows,
                ));
                assert(st.nodes[r].column == column);
            }
        }

        // max_column is attained by a node or an edge.
        if st.max_column == st1.max_column {
            if st1.max_column == stp.max_column {
                if n - 1 == 0 {
                    assert(stp.max_column == 0);
                    assert(st.nodes[0].column == column);
                    assert(column <= st1.max_column);
                    assert(st.nodes[0].column == st.max_column);
                } else {
                    if exists|r: int| 0 <= r < n - 1 && stp.nodes[r].column == stp.max_column {
                        let r0 = choose|r: int|
                            0 <= r < n - 1 && stp.nodes[r].column == stp.max_column;
                        assert(st.nodes[r0].column == st.max_column);
                    } else {
                        let j0 = choose|j: int|
                            0 <= j < stp.edges.len() && stp.edges[j].to_column == stp.max_column;
                        assert(st.edges[j0] == stp.edges[j0]);
                        assert(st.edges[j0].to_column == st.max_column);
                    }
                }
            } else {
                // The new commit raised the maximum: its own node attains it.
                assert(st1.max_column == column);
                assert(st.nodes[n - 1].column == st.max_column);
            }
        } else {
            // A non-first parent raised the maximum: its edge attains it.
            let kk0 = choose|kk: int|
                0 <= kk < rec.parents.len() && st.edges[#[trigger] offset_index(
                    st1.edges.len() as int,
                    kk,
                )].to_column == st.max_column;
            let j0 = offset_index(st1.edges.len() as int, kk0);
            assert(0 <= j0 < st.edges.len() && st.edges[j0].to_column == st.max_column);
        }
    }
}

/// Determinism: the layout is a mathematical function of the commit window,
/// so two builds of identical records agree in every column, row, color and
/// edge classification.
pub proof fn lemma_layout_deterministic(recs1: Seq<CommitView>, recs2: Seq<CommitView>)
    requires
        recs1 == recs2,
    ensures
        spec_layout(recs1) == spec_layout(recs2),
{
}

/// Row ordering: the layout has one node per commit, and row `r` holds the
/// `r`-th commit of the window — rows are `0, 1, 2, …` with no gaps or
/// repeats.
pub proof fn lemma_row_ordering(recs: Seq<CommitView>)
    ensures
        spec_layout(recs).nodes.len() == recs.len(),
        forall|r: int|
            0 <= r < recs.len() ==> #[trigger] spec_layout(recs).nodes[r].row == r,
        forall|r: int|
            0 <= r < recs.len() ==> #[trigger] spec_layout(recs).nodes[r].commit == recs[r],
{
    lemma_layout_invariants(recs, recs.len() as int);
    let st = spec_layout(recs);
    assert forall|r: int| 0 <= r < recs.len() implies #[trigger] st.nodes[r].row == r by {
        assert(node_ok(st.nodes[r], recs[r], r, st.max_column));
    }
    assert forall|r: int| 0 <= r < recs.len() implies #[trigger] st.nodes[r].commit == recs[r] by {
        assert(node_ok(st.nodes[r], recs[r], r, st.max_column));
    }
}

/// Edge count: every commit contributes exactly one edge per parent, so the
/// edge list is as long as the parent lists together.
pub proof fn lemma_edge_count(recs: Seq<CommitView>)
    ensures
        spec_layout(recs).edges.len() == edges_before(recs, recs.len() as int),
{
    lemma_layout_invariants(recs, recs.len() as int);
}

/// First-parent continuity: the edge to a commit's first parent keeps the
/// commit's column.
pub proof fn lemma_first_parent_continuity(recs: Seq<CommitView>, r: int)
    requires
        0 <= r < recs.len(),
        recs[r].parents.len() >= 1,
    ensures
        ({
            let st = spec_layout(recs);
            let e = st.edges[edges_before(recs, r) as int];
            &&& e.to_column == e.from_column
            &&& e.from_column == st.nodes[r].column
        }),
{
    lemma_layout_invariants(recs, recs.len() as int);
    assert(edge_ok(
        spec_layout(recs).edges[edge_index(recs, r, 0)],
        recs[r],
        r as nat,
        spec_layout(recs).nodes[r].column,
        0,
        spec_layout(recs).max_column,
        rows_before(recs, r + 1),
    ));
}

/// Merge classification: every edge leaving a commit with two or more
/// parents is a merge edge, whether or not the parent keeps the commit's
/// column.
pub proof fn lemma_merge_classification(recs: Seq<CommitView>, r: int, kk: int)
    requires
        0 <= r < recs.len(),
        recs[r].parents.len() >= 2,
        0 <= kk < recs[r].parents.len(),
    ensures
        spec_layout(recs).edges[edge_index(recs, r, kk)].edge_type == EdgeType::Merge,
{
    lemma_layout_invariants(recs, recs.len() as int);
}

/// Linear versus branch: a commit with exactly one parent gets a linear edge
/// exactly when the parent keeps its column, and a branch edge otherwise.
pub proof fn lemma_linear_vs_branch(recs: Seq<CommitView>, r: int)
    requires
        0 <= r < recs.len(),
        recs[r].parents.len() == 1,
    ensures
        ({
            let e = spec_layout(recs).edges[edge_index(recs, r, 0)];
            &&& (e.edge_type == EdgeType::Linear <==> e.to_column == e.from_column)
            &&& (e.edge_type == EdgeType::Branch <==> e.to_column != e.from_column)
        }),
{
    lemma_layout_invariants(recs, recs.len() as int);
    assert(edge_ok(
        spec_layout(recs).edges[edge_index(recs, r, 0)],
        recs[r],
        r as nat,
        spec_layout(recs).nodes[r].column,
        0,
        spec_layout(recs).max_column,
        rows_before(recs, r + 1),
    ));
}

/// max_column soundness: `max_column` bounds every column a node or an edge
/// touches, and is attained by one of them whenever the window is non-empty;
/// an empty window lays out with `max_column == 0`.
pub proof fn lemma_max_column_sound(recs: Seq<CommitView>)
    ensures
        ({
            let st = spec_layout(recs);
            &&& forall|r: int|
                0 <= r < st.nodes.len() ==> #[trigger] st.nodes[r].column <= st.max_column
            &&& forall|j: int|
                0 <= j < st.edges.len() ==> #[trigger] st.edges[j].from_column <= st.max_column
                    && st.edges[j].to_column <= st.max_column
            &&& (recs.len() == 0 ==> st.max_column == 0 && st.nodes.len() == 0 && st.edges.len()
                == 0)
            &&& (recs.len() > 0 ==> (exists|r: int|
                0 <= r < st.nodes.len() && #[trigger] st.nodes[r].column == st.max_column)
                || (exists|j: int|
                    0 <= j < st.edges.len() && #[trigger] st.edges[j].to_column == st.max_column))
        }),
{
    let n = recs.len() as int;
    lemma_layout_invariants(recs, n);
    let st = spec_layout(recs);
    assert forall|r: int| 0 <= r < st.nodes.len() implies #[trigger] st.nodes[r].column
        <= st.max_column by {
        assert(node_ok(st.nodes[r], recs[r], r, st.max_column));
    }
    assert forall|j: int|
        0 <= j < st.edges.len() implies #[trigger] st.edges[j].from_column <= st.max_column
            && st.edges[j].to_column <= st.max_column by {
        lemma_edge_index_decompose(recs, n, j);
        let (r, kk) = choose|r: int, kk: int|
            0 <= r < n && 0 <= kk < recs[r].parents.len() && j == #[trigger] edge_index(
                recs,
                r,
                kk,
            );
        assert(edge_ok(
            st.edges[j],
            recs[r],
            r as nat,
            st.nodes[r].column,
            kk,
            st.max_column,
            rows_before(recs, r + 1),
        ));
        assert(node_ok(st.nodes[r], recs[r], r, st.max_column));
    }
}

/// Color cycling: the palette has eight hues, so columns eight lanes apart
/// share a color.
pub proof fn lemma_color_cycling(c: nat)
    ensures
        spec_palette_color(c + 8) == spec_palette_color(c),
{
    assert((c + 8) % 8 == c % 8) by (nonlinear_arith);
}

/// Every color the layout assigns comes from the palette of the node's or
/// edge's own column.
pub proof fn lemma_colors_follow_columns(recs: Seq<CommitView>)
    ensures
        ({
            let st = spec_layout(recs);
            &&& forall|r: int|
                0 <= r < st.nodes.len() ==> #[trigger] st.nodes[r].color == spec_palette_color(
                    st.nodes[r].column,
                )
            &&& forall|j: int|
                0 <= j < st.edges.len() ==> #[trigger] st.edges[j].color == spec_palette_color(
                    st.edges[j].from_column,
                )
        }),
{
    let n = recs.len() as int;
    lemma_layout_invariants(recs, n);
    let st = spec_layout(recs);
    assert forall|r: int| 0 <= r < st.nodes.len() implies #[trigger] st.nodes[r].color
        == spec_palette_color(st.nodes[r].column) by {
        assert(node_ok(st.nodes[r], recs[r], r, st.max_column));
    }
    assert forall|j: int|
        0 <= j < st.edges.len() implies #[trigger] st.edges[j].color == spec_palette_color(
        st.edges[j].from_column,
    ) by {
        lemma_edge_index_decompose(recs, n, j);
        let (r, kk) = choose|r: int, kk: int|
            0 <= r < n && 0 <= kk < recs[r].parents.len() && j == #[trigger] edge_index(
                recs,
                r,
                kk,
            );
        assert(edge_ok(
            st.edges[j],
            recs[r],
            r as nat,
            st.nodes[r].column,
            kk,
            st.max_column,
            rows_before(recs, r + 1),
        ));
    }
}

/// Edge targets: the edge for parent `kk` of the commit in row `r` points
/// at the row where that parent was most recently placed, or one row past
/// its child when the parent lies outside the window.
pub proof fn lemma_edge_rows(recs: Seq<CommitView>, r: int, kk: int)
    requires
        0 <= r < recs.len(),
        0 <= kk < recs[r].parents.len(),
    ensures
        ({
            let e = spec_layout(recs).edges[edge_index(recs, r, kk)];
            let rows = rows_before(recs, r + 1);
            &&& e.to_sha == recs[r].parents[kk]
            &&& e.from_row == r
            &&& e.to_row == (if rows.contains_key(e.to_sha) {
                rows[e.to_sha]
            } else {
                (r + 1) as nat
            })
        }),
{
    lemma_layout_invariants(recs, recs.len() as int);
}

} // verus!
