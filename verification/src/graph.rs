//! The commit-graph data model and the lane-assignment engine.
//!
//! `CommitGraphData::from_records` consumes an ordered window of commit
//! records and assigns each commit a column (lane), a row and a color, and
//! each parent relationship a classified edge.  The whole computation is
//! specified by the spec-level `spec_layout` fold, so that the executable
//! engine provably returns exactly the mathematical layout of its input.

use vstd::prelude::*;
use vstd::string::*;
use crate::idmap::{IdMap, seq_views};
use crate::text::u64_to_string;

verus! {

/// Palette size: colors cycle over columns with this period.
pub open spec fn palette_len() -> nat {
    8
}

/// Color assigned to a lane, as a spec-level function of the column.
pub open spec fn spec_palette_color(column: nat) -> u32 {
    let i = column % palette_len();
    if i == 0 {
        0x89b4fa
    } else if i == 1 {
        0xa6e3a1
    } else if i == 2 {
        0xf9e2af
    } else if i == 3 {
        0xfab387
    } else if i == 4 {
        0xf38ba8
    } else if i == 5 {
        0xcba6f7
    } else if i == 6 {
        0x94e2d5
    } else {
        0xf5c2e7
    }
}

/// Color of the lane at `column`: an eight-hue palette cycling by column.
pub fn palette_color(column: usize) -> (c: u32)
    ensures
        c == spec_palette_color(column as nat),
{
    let i = column % 8;
    if i == 0 {
        0x89b4fa
    } else if i == 1 {
        0xa6e3a1
    } else if i == 2 {
        0xf9e2af
    } else if i == 3 {
        0xfab387
    } else if i == 4 {
        0xf38ba8
    } else if i == 5 {
        0xcba6f7
    } else if i == 6 {
        0x94e2d5
    } else {
        0xf5c2e7
    }
}

/// Single commit information.
#[derive(Clone, Debug)]
pub struct CommitInfo {
    pub sha: String,
    pub short_sha: String,
    pub message: String,
    pub author: String,
    pub email: String,
    /// Commit time as seconds since the Unix epoch, UTC.
    pub timestamp: i64,
    pub parents: Vec<String>,
    /// Branch at this commit (if any).
    pub branch: Option<String>,
    /// All branches pointing to this commit.
    pub branches: Vec<String>,
    /// Remote references pointing to this commit.
    pub remotes: Vec<String>,
    /// Tags pointing to this commit.
    pub tags: Vec<String>,
}

/// Mathematical image of a commit record.
pub ghost struct CommitView {
    pub sha: Seq<char>,
    pub short_sha: Seq<char>,
    pub message: Seq<char>,
    pub author: Seq<char>,
    pub email: Seq<char>,
    pub timestamp: int,
    pub parents: Seq<Seq<char>>,
    pub branch: Option<Seq<char>>,
    pub branches: Seq<Seq<char>>,
    pub remotes: Seq<Seq<char>>,
    pub tags: Seq<Seq<char>>,
}

impl View for CommitInfo {
    type V = CommitView;

    open spec fn view(&self) -> CommitView {
        CommitView {
            sha: self.sha@,
            short_sha: self.short_sha@,
            message: self.message@,
            author: self.author@,
            email: self.email@,
            timestamp: self.timestamp as int,
            parents: seq_views(self.parents@),
            branch: match self.branch {
                Some(b) => Some(b@),
                None => None,
            },
            branches: seq_views(self.branches@),
            remotes: seq_views(self.remotes@),
            tags: seq_views(self.tags@),
        }
    }
}

/// The view of an optional string, with a default for the missing case.
pub open spec fn opt_view_or(o: Option<String>, d: Seq<char>) -> Seq<char> {
    match o {
        Some(s) => s@,
        None => d,
    }
}

/// The wording of a commit's age, from its distance to the present moment in
/// seconds.
pub open spec fn spec_relative_label(delta: int) -> Seq<char> {
    let days = delta / 86400;
    if days > 365 {
        crate::text::spec_decimal((days / 365) as nat) + " years ago"@
    } else if days > 30 {
        crate::text::spec_decimal((days / 30) as nat) + " months ago"@
    } else if days > 7 {
        crate::text::spec_decimal((days / 7) as nat) + " weeks ago"@
    } else if days > 0 {
        crate::text::spec_decimal(days as nat) + " days ago"@
    } else if delta / 3600 > 0 {
        crate::text::spec_decimal((delta / 3600) as nat) + " hours ago"@
    } else if delta / 60 > 0 {
        crate::text::spec_decimal((delta / 60) as nat) + " minutes ago"@
    } else {
        "just now"@
    }
}

/// Relies on chrono::Utc::now for the present moment; nothing is promised of
/// the value it returns.
#[verifier::external_body]
fn now_secs() -> i64 {
    chrono::Utc::now().timestamp()
}

impl CommitInfo {
    /// Assembles a commit record from what a backend lookup hands over,
    /// applying the data-quality defaults: a missing author becomes
    /// "Unknown", a missing message or email becomes empty.  The short
    /// identifier is the first seven characters of the full one.
    pub fn from_parts(
        sha: String,
        message: Option<String>,
        author: Option<String>,
        email: Option<String>,
        timestamp: i64,
        parents: Vec<String>,
        branches: Vec<String>,
        remotes: Vec<String>,
        tags: Vec<String>,
    ) -> (r: CommitInfo)
        requires
            sha@.len() >= 7,
        ensures
            r@.sha == sha@,
            r@.short_sha == sha@.subrange(0, 7),
            r@.message == opt_view_or(message, Seq::<char>::empty()),
            r@.author == opt_view_or(author, "Unknown"@),
            r@.email == opt_view_or(email, Seq::<char>::empty()),
            r@.timestamp == timestamp as int,
            r@.parents == seq_views(parents@),
            r@.branch == (if branches@.len() > 0 {
                Some(branches@[0]@)
            } else {
                None::<Seq<char>>
            }),
            r@.branches == seq_views(branches@),
            r@.remotes == seq_views(remotes@),
            r@.tags == seq_views(tags@),
    {
        let short = String::from_str(sha.as_str().substring_char(0, 7));
        let message = match message {
            Some(m) => m,
            None => String::new(),
        };
        let author = match author {
            Some(a) => a,
            None => String::from_str("Unknown"),
        };
        let email = match email {
            Some(e) => e,
            None => String::new(),
        };
        let branch = if branches.len() > 0 {
            Some(branches[0].clone())
        } else {
            None
        };
        CommitInfo {
            sha,
            short_sha: short,
            message,
            author,
            email,
            timestamp,
            parents,
            branch,
            branches,
            remotes,
            tags,
        }
    }

    /// A field-for-field copy whose view provably equals the original's.
    pub fn duplicate(&self) -> (r: CommitInfo)
        ensures
            r@ == self@,
    {
        let parents = self.parents.clone();
        let branches = self.branches.clone();
        let remotes = self.remotes.clone();
        let tags = self.tags.clone();
        proof {
            assert(parents@ =~= self.parents@);
            assert(branches@ =~= self.branches@);
            assert(remotes@ =~= self.remotes@);
            assert(tags@ =~= self.tags@);
        }
        let r = CommitInfo {
            sha: self.sha.clone(),
            short_sha: self.short_sha.clone(),
            message: self.message.clone(),
            author: self.author.clone(),
            email: self.email.clone(),
            timestamp: self.timestamp,
            parents,
            branch: match &self.branch {
                Some(b) => Some(b.clone()),
                None => None,
            },
            branches,
            remotes,
            tags,
        };
        r
    }

    /// The commit's age in words, measured against the present moment.
    pub fn relative_time(&self) -> (r: String)
        ensures
            exists|now: int| r@ == #[trigger] spec_relative_label(now - self@.timestamp),
    {
        let now = now_secs();
        let r = relative_label(now, self.timestamp);
        proof {
            assert(r@ == spec_relative_label(now as int - self@.timestamp));
        }
        r
    }
}

/// Renders the distance between two moments in words.
fn relative_label(now: i64, then: i64) -> (r: String)
    ensures
        r@ == spec_relative_label(now as int - then as int),
{
    let delta: i128 = now as i128 - then as i128;
    proof {
        reveal_strlit("just now");
    }
    if delta <= 0 {
        return String::from_str("just now");
    }
    let days: i128 = delta / 86400;
    if days > 365 {
        u64_to_string((days / 365) as u64).concat(" years ago")
    } else if days > 30 {
        u64_to_string((days / 30) as u64).concat(" months ago")
    } else if days > 7 {
        u64_to_string((days / 7) as u64).concat(" weeks ago")
    } else if days > 0 {
        u64_to_string(days as u64).concat(" days ago")
    } else {
        let hours: i128 = delta / 3600;
        if hours > 0 {
            u64_to_string(hours as u64).concat(" hours ago")
        } else {
            let minutes: i128 = delta / 60;
            if minutes > 0 {
                u64_to_string(minutes as u64).concat(" minutes ago")
            } else {
                String::from_str("just now")
            }
        }
    }
}

/// How far a reset reaches: the HEAD alone, HEAD and index, or HEAD, index
/// and working tree.
#[derive(Clone, Copy, PartialEq, Eq, Structural, Debug)]
pub enum ResetMode {
    Soft,
    Mixed,
    Hard,
}

/// Graph edge classification.
#[derive(Clone, Copy, PartialEq, Eq, Structural, Debug)]
pub enum EdgeType {
    Linear,
    Branch,
    Merge,
}

/// Edge in the commit graph.
#[derive(Clone, Debug)]
pub struct GraphEdge {
    pub from_sha: String,
    pub to_sha: String,
    pub from_column: usize,
    pub to_column: usize,
    pub from_row: usize,
    pub to_row: usize,
    pub color: u32,
    pub edge_type: EdgeType,
}

/// Mathematical image of a graph edge.
pub ghost struct EdgeView {
    pub from_sha: Seq<char>,
    pub to_sha: Seq<char>,
    pub from_column: nat,
    pub to_column: nat,
    pub from_row: nat,
    pub to_row: nat,
    pub color: u32,
    pub edge_type: EdgeType,
}

impl View for GraphEdge {
    type V = EdgeView;

    open spec fn view(&self) -> EdgeView {
        EdgeView {
            from_sha: self.from_sha@,
            to_sha: self.to_sha@,
            from_column: self.from_column as nat,
            to_column: self.to_column as nat,
            from_row: self.from_row as nat,
            to_row: self.to_row as nat,
            color: self.color,
            edge_type: self.edge_type,
        }
    }
}

/// Node in the commit graph.
#[derive(Clone, Debug)]
pub struct GraphNode {
    pub commit: CommitInfo,
    pub column: usize,
    pub row: usize,
    pub color: u32,
}

/// Mathematical image of a graph node.
pub ghost struct NodeView {
    pub commit: CommitView,
    pub column: nat,
    pub row: nat,
    pub color: u32,
}

impl View for GraphNode {
    type V = NodeView;

    open spec fn view(&self) -> NodeView {
        NodeView {
            commit: self.commit@,
            column: self.column as nat,
            row: self.row as nat,
            color: self.color,
        }
    }
}

/// Complete commit graph data.
#[derive(Clone, Debug)]
pub struct CommitGraphData {
    pub nodes: Vec<GraphNode>,
    pub edges: Vec<GraphEdge>,
    pub max_column: usize,
}

/// Mathematical image of a whole layout.
pub ghost struct GraphView {
    pub nodes: Seq<NodeView>,
    pub edges: Seq<EdgeView>,
    pub max_column: nat,
}

impl View for CommitGraphData {
    type V = GraphView;

    open spec fn view(&self) -> GraphView {
        GraphView {
            nodes: node_views(self.nodes@),
            edges: edge_views(self.edges@),
            max_column: self.max_column as nat,
        }
    }
}

/// The views of a sequence of commit records.
pub open spec fn commit_views(s: Seq<CommitInfo>) -> Seq<CommitView> {
    s.map_values(|c: CommitInfo| c@)
}

/// The views of a sequence of graph nodes.
pub open spec fn node_views(s: Seq<GraphNode>) -> Seq<NodeView> {
    s.map_values(|n: GraphNode| n@)
}

/// The views of a sequence of graph edges.
pub open spec fn edge_views(s: Seq<GraphEdge>) -> Seq<EdgeView> {
    s.map_values(|e: GraphEdge| e@)
}

/// The views of a lane table.
pub open spec fn lane_views(s: Seq<Option<String>>) -> Seq<Option<Seq<char>>> {
    s.map_values(
        |o: Option<String>|
            match o {
                Some(x) => Some(x@),
                None => None,
            },
    )
}

/// An identifier map seen with mathematical values.
pub open spec fn map_as_nat(m: Map<Seq<char>, usize>) -> Map<Seq<char>, nat> {
    Map::new(|k: Seq<char>| m.contains_key(k), |k: Seq<char>| m[k] as nat)
}

proof fn lemma_map_as_nat(m: Map<Seq<char>, usize>)
    ensures
        forall|k: Seq<char>| #![auto] map_as_nat(m).contains_key(k) == m.contains_key(k),
        forall|k: Seq<char>| #![auto] m.contains_key(k) ==> map_as_nat(m)[k] == m[k] as nat,
{
}

proof fn lemma_map_as_nat_insert(m: Map<Seq<char>, usize>, k: Seq<char>, v: usize)
    ensures
        map_as_nat(m.insert(k, v)) == map_as_nat(m).insert(k, v as nat),
{
    assert(map_as_nat(m.insert(k, v)) =~= map_as_nat(m).insert(k, v as nat));
}

/// The state threaded through the layout fold.
pub ghost struct LayoutState {
    /// Lane occupancy: for each lane, the commit expected there next, if any.
    pub lanes: Seq<Option<Seq<char>>>,
    /// Pending column reservations, keyed by commit identifier.
    pub reserved: Map<Seq<char>, nat>,
    /// Row of every commit already placed.
    pub rows: Map<Seq<char>, nat>,
    pub nodes: Seq<NodeView>,
    pub edges: Seq<EdgeView>,
    pub max_column: nat,
}

/// The empty layout state.
pub open spec fn init_state() -> LayoutState {
    LayoutState {
        lanes: Seq::empty(),
        reserved: Map::empty(),
        rows: Map::empty(),
        nodes: Seq::empty(),
        edges: Seq::empty(),
        max_column: 0,
    }
}

/// Index of the first empty lane, or the table length when all are occupied.
pub open spec fn first_free(lanes: Seq<Option<Seq<char>>>) -> nat
    decreases lanes.len(),
{
    if lanes.len() == 0 {
        0
    } else if lanes[0] is None {
        0
    } else {
        1 + first_free(lanes.drop_first())
    }
}

pub proof fn lemma_first_free(lanes: Seq<Option<Seq<char>>>)
    ensures
        first_free(lanes) <= lanes.len(),
        first_free(lanes) < lanes.len() ==> lanes[first_free(lanes) as int] is None,
        forall|j: int| 0 <= j < first_free(lanes) ==> lanes[j] is Some,
    decreases lanes.len(),
{
    if lanes.len() > 0 && lanes[0] is Some {
        lemma_first_free(lanes.drop_first());
        assert forall|j: int| 0 <= j < first_free(lanes) implies lanes[j] is Some by {
            if j > 0 {
                assert(lanes.drop_first()[j - 1] is Some);
            }
        }
    }
}

/// Outcome of placing one parent: the updated lane state and the parent's
/// column.
pub ghost struct ParentPlacement {
    pub lanes: Seq<Option<Seq<char>>>,
    pub reserved: Map<Seq<char>, nat>,
    pub max_column: nat,
    pub pcol: nat,
}

/// Lane bookkeeping for the parent at index `k` of a commit sitting at
/// `column`: the first parent inherits the commit's column, every other
/// parent takes the first free lane; either way the lane is marked as
/// expecting that parent.
pub open spec fn place_parent(
    lanes: Seq<Option<Seq<char>>>,
    reserved: Map<Seq<char>, nat>,
    column: nat,
    max_column: nat,
    p: Seq<char>,
    k: int,
) -> ParentPlacement {
    if k == 0 {
        ParentPlacement {
            lanes: if column < lanes.len() {
                lanes.update(column as int, Some(p))
            } else {
                lanes
            },
            reserved: reserved.insert(p, column),
            max_column,
            pcol: column,
        }
    } else {
        let c = first_free(lanes);
        let grown = if c == lanes.len() {
            lanes.push(None)
        } else {
            lanes
        };
        ParentPlacement {
            lanes: grown.update(c as int, Some(p)),
            reserved: reserved.insert(p, c),
            max_column: if c > max_column {
                c
            } else {
                max_column
            },
            pcol: c,
        }
    }
}

/// Classification of the edge from a commit to its parent at column `pcol`:
/// every edge of a merge commit is a merge edge; otherwise the edge is linear
/// exactly when the parent keeps the commit's column.
pub open spec fn classify_edge(parent_count: nat, column: nat, pcol: nat) -> EdgeType {
    if parent_count > 1 {
        EdgeType::Merge
    } else if pcol != column {
        EdgeType::Branch
    } else {
        EdgeType::Linear
    }
}

/// Processes the first `k` parents of the commit `rec` sitting at row `r`
/// and column `column`, appending one edge per parent.
pub open spec fn parents_prefix(
    st: LayoutState,
    rec: CommitView,
    r: nat,
    column: nat,
    k: int,
) -> LayoutState
    decreases k,
{
    if k <= 0 {
        st
    } else {
        let prev = parents_prefix(st, rec, r, column, k - 1);
        let p = rec.parents[k - 1];
        let ps = place_parent(prev.lanes, prev.reserved, column, prev.max_column, p, k - 1);
        let to_row = if prev.rows.contains_key(p) {
            prev.rows[p]
        } else {
            r + 1
        };
        let edge = EdgeView {
            from_sha: rec.sha,
            to_sha: p,
            from_column: column,
            to_column: ps.pcol,
            from_row: r,
            to_row,
            color: spec_palette_color(column),
            edge_type: classify_edge(rec.parents.len(), column, ps.pcol),
        };
        LayoutState {
            lanes: ps.lanes,
            reserved: ps.reserved,
            rows: prev.rows,
            nodes: prev.nodes,
            edges: prev.edges.push(edge),
            max_column: ps.max_column,
        }
    }
}

/// The column a commit takes: its reserved lane when an earlier commit
/// expected it, otherwise the first free lane.
pub open spec fn commit_column(st: LayoutState, rec: CommitView) -> nat {
    if st.reserved.contains_key(rec.sha) {
        st.reserved[rec.sha]
    } else {
        first_free(st.lanes)
    }
}

/// Everything the engine does for one commit before its parents: record the
/// row, settle the column, free the lane, bump the highest column and append
/// the node.
pub open spec fn place_commit(st: LayoutState, rec: CommitView, r: nat) -> LayoutState {
    let column = commit_column(st, rec);
    let fresh = !st.reserved.contains_key(rec.sha);
    let grown = if fresh && column == st.lanes.len() {
        st.lanes.push(None)
    } else {
        st.lanes
    };
    let freed = if column < grown.len() {
        grown.update(column as int, None)
    } else {
        grown
    };
    let node = NodeView {
        commit: rec,
        column,
        row: r,
        color: spec_palette_color(column),
    };
    LayoutState {
        lanes: freed,
        reserved: if fresh {
            st.reserved.insert(rec.sha, column)
        } else {
            st.reserved
        },
        rows: st.rows.insert(rec.sha, r),
        nodes: st.nodes.push(node),
        edges: st.edges,
        max_column: if column > st.max_column {
            column
        } else {
            st.max_column
        },
    }
}

/// One full step of the fold: place the commit, then its parents.
pub open spec fn commit_step(st: LayoutState, rec: CommitView, r: nat) -> LayoutState {
    parents_prefix(
        place_commit(st, rec, r),
        rec,
        r,
        commit_column(st, rec),
        rec.parents.len() as int,
    )
}

/// Layout of the first `n` commits of the window.
pub open spec fn layout_prefix(recs: Seq<CommitView>, n: int) -> LayoutState
    decreases n,
{
    if n <= 0 {
        init_state()
    } else {
        commit_step(layout_prefix(recs, n - 1), recs[n - 1], (n - 1) as nat)
    }
}

/// The layout of a whole window of commit records.
pub open spec fn spec_layout(recs: Seq<CommitView>) -> LayoutState {
    layout_prefix(recs, recs.len() as int)
}

impl CommitGraphData {
    /// Appends a later page onto this one, as the pagination path does after
    /// building with `offset` set to the current node count: nodes and edges
    /// concatenate in walk order.  The highest column stays as it was: a
    /// later page restarts its lane table, so its columns are its own.
    pub fn append_page(&mut self, more: CommitGraphData)
        ensures
            final(self)@.nodes == old(self)@.nodes + more@.nodes,
            final(self)@.edges == old(self)@.edges + more@.edges,
            final(self)@.max_column == old(self)@.max_column,
    {
        let mut more = more;
        let ghost nodes_before = self.nodes@;
        let ghost edges_before = self.edges@;
        let ghost more_nodes = more.nodes@;
        let ghost more_edges = more.edges@;
        self.nodes.append(&mut more.nodes);
        self.edges.append(&mut more.edges);
        proof {
            assert(node_views(self.nodes@) =~= node_views(nodes_before) + node_views(more_nodes));
            assert(edge_views(self.edges@) =~= edge_views(edges_before) + edge_views(more_edges));
        }
    }
}

/// Scans the lane table for the first free slot.
fn find_free_lane(lanes: &Vec<Option<String>>) -> (c: usize)
    ensures
        c as nat == first_free(lane_views(lanes@)),
        c <= lanes.len(),
{
    proof {
        lemma_first_free(lane_views(lanes@));
    }
    let mut i: usize = 0;
    while i < lanes.len()
        invariant
            i <= lanes.len(),
            forall|j: int| 0 <= j < i ==> lane_views(lanes@)[j] is Some,
            first_free(lane_views(lanes@)) <= lanes@.len(),
            first_free(lane_views(lanes@)) < lanes@.len() ==> lane_views(lanes@)[first_free(
                lane_views(lanes@),
            ) as int] is None,
            forall|j: int| 0 <= j < first_free(lane_views(lanes@)) ==> lane_views(lanes@)[j] is Some,
        decreases lanes.len() - i,
    {
        if lanes[i].is_none() {
            proof {
                assert(lane_views(lanes@)[i as int] is None);
            }
            return i;
        }
        proof {
            assert(lane_views(lanes@)[i as int] is Some);
        }
        i = i + 1;
    }
    i
}

impl CommitGraphData {
    /// Lays the window out: one node per commit in walk order, one edge per
    /// parent relationship, and the highest column any of them touches.
    ///
    /// The result is exactly the mathematical layout of the records, so two
    /// calls on equal windows agree in every column, row, color and edge.
    pub fn from_records(records: Vec<CommitInfo>) -> (r: CommitGraphData)
        ensures
            r@.nodes == spec_layout(commit_views(records@)).nodes,
            r@.edges == spec_layout(commit_views(records@)).edges,
            r@.max_column == spec_layout(commit_views(records@)).max_column,
    {
        let ghost orig: Seq<CommitInfo> = records@;
        let ghost cviews: Seq<CommitView> = commit_views(orig);

        let mut records = records;
        let n = records.len();
        let mut nodes: Vec<GraphNode> = Vec::new();
        let mut edges: Vec<GraphEdge> = Vec::new();
        let mut max_col: usize = 0;
        let mut lanes: Vec<Option<String>> = Vec::new();
        let mut rows_map = IdMap::new();
        let mut reserved = IdMap::new();
        let mut i: usize = 0;

        proof {
            assert(lane_views(lanes@) =~= layout_prefix(cviews, 0).lanes);
            assert(map_as_nat(rows_map@) =~= layout_prefix(cviews, 0).rows);
            assert(map_as_nat(reserved@) =~= layout_prefix(cviews, 0).reserved);
            assert(node_views(nodes@) =~= layout_prefix(cviews, 0).nodes);
            assert(edge_views(edges@) =~= layout_prefix(cviews, 0).edges);
        }

        while records.len() > 0
            invariant
                n == orig.len(),
                i + records@.len() == orig.len(),
                records@ == orig.subrange(i as int, orig.len() as int),
                cviews == commit_views(orig),
                lane_views(lanes@) == layout_prefix(cviews, i as int).lanes,
                map_as_nat(reserved@) == layout_prefix(cviews, i as int).reserved,
                map_as_nat(rows_map@) == layout_prefix(cviews, i as int).rows,
                node_views(nodes@) == layout_prefix(cviews, i as int).nodes,
                edge_views(edges@) == layout_prefix(cviews, i as int).edges,
                max_col as nat == layout_prefix(cviews, i as int).max_column,
            decreases records@.len(),
        {
            let ghost st = layout_prefix(cviews, i as int);
            let row: usize = i;
            let ghost pre_remove = records@;
            let commit = records.remove(0);
            let ghost rec = commit@;
            proof {
                assert(pre_remove[0] == orig[i as int]);
                assert(records@ =~= orig.subrange(i + 1, orig.len() as int));
                assert(cviews[i as int] == rec);
            }

            let sha = commit.sha.clone();
            let parents = commit.parents.clone();
            proof {
                assert(parents@ =~= commit.parents@);
                assert(seq_views(parents@) == rec.parents);
            }

            let ghost rows_before = rows_map@;
            rows_map.insert(sha.clone(), row);
            proof {
                lemma_map_as_nat_insert(rows_before, rec.sha, row);
            }

            // Column for the commit itself.
            proof {
                lemma_map_as_nat(reserved@);
            }
            let column: usize = match reserved.get(sha.as_str()) {
                Some(c) => c,
                None => {
                    let c = find_free_lane(&lanes);
                    if c == lanes.len() {
                        let ghost lanes_before = lanes@;
                        lanes.push(None);
                        proof {
                            assert(lane_views(lanes@) =~= lane_views(lanes_before).push(None));
                        }
                    }
                    let ghost res_before = reserved@;
                    reserved.insert(sha.clone(), c);
                    proof {
                        lemma_map_as_nat_insert(res_before, rec.sha, c);
                    }
                    c
                },
            };
            proof {
                assert(column as nat == commit_column(st, rec));
            }

            // The commit has arrived: its lane is free again.
            if column < lanes.len() {
                let ghost lanes_before = lanes@;
                lanes[column] = None;
                proof {
                    assert(lane_views(lanes@) =~= lane_views(lanes_before).update(
                        column as int,
                        None,
                    ));
                }
            }

            if column > max_col {
                max_col = column;
            }
            let color = palette_color(column);

            let ghost nodes_before = nodes@;
            nodes.push(GraphNode { commit, column, row, color });
            let ghost st1 = place_commit(st, rec, row as nat);
            proof {
                assert(node_views(nodes@) =~= node_views(nodes_before).push(
                    NodeView { commit: rec, column: column as nat, row: row as nat, color },
                ));
                assert(lane_views(lanes@) == st1.lanes);
                assert(map_as_nat(reserved@) == st1.reserved);
                assert(map_as_nat(rows_map@) == st1.rows);
                assert(node_views(nodes@) == st1.nodes);
                assert(edge_views(edges@) == st1.edges);
                assert(max_col as nat == st1.max_column);
            }

            // One edge per parent, in parent order.
            let mut k: usize = 0;
            while k < parents.len()
                invariant
                    k <= parents@.len(),
                    seq_views(parents@) == rec.parents,
                    sha@ == rec.sha,
                    column as nat == commit_column(st, rec),
                    color == spec_palette_color(column as nat),
                    row < n,
                    n == orig.len(),
                    st1 == place_commit(st, rec, row as nat),
                    lane_views(lanes@) == parents_prefix(
                        st1,
                        rec,
                        row as nat,
                        column as nat,
                        k as int,
                    ).lanes,
                    map_as_nat(reserved@) == parents_prefix(
                        st1,
                        rec,
                        row as nat,
                        column as nat,
                        k as int,
                    ).reserved,
                    map_as_nat(rows_map@) == parents_prefix(
                        st1,
                        rec,
                        row as nat,
                        column as nat,
                        k as int,
                    ).rows,
                    node_views(nodes@) == parents_prefix(
                        st1,
                        rec,
                        row as nat,
                        column as nat,
                        k as int,
                    ).nodes,
                    edge_views(edges@) == parents_prefix(
                        st1,
                        rec,
                        row as nat,
                        column as nat,
                        k as int,
                    ).edges,
                    max_col as nat == parents_prefix(
                        st1,
                        rec,
                        row as nat,
                        column as nat,
                        k as int,
                    ).max_column,
                decreases parents@.len() - k,
            {
                let ghost prev = parents_prefix(st1, rec, row as nat, column as nat, k as int);
                let p = parents[k].clone();
                proof {
                    assert(p@ == rec.parents[k as int]);
                }
                let ghost ps = place_parent(
                    prev.lanes,
                    prev.reserved,
                    column as nat,
                    prev.max_column,
                    rec.parents[k as int],
                    k as int,
                );
                let pcol: usize;
                if k == 0 {
                    if column < lanes.len() {
                        let ghost lanes_before = lanes@;
                        lanes[column] = Some(p.clone());
                        proof {
                            assert(lane_views(lanes@) =~= lane_views(lanes_before).update(
                                column as int,
                                Some(p@),
                            ));
                        }
                    }
                    let ghost res_before = reserved@;
                    reserved.insert(p.clone(), column);
                    proof {
                        lemma_map_as_nat_insert(res_before, p@, column);
                    }
                    pcol = column;
                } else {
                    let c = find_free_lane(&lanes);
                    if c == lanes.len() {
                        let ghost lanes_before = lanes@;
                        lanes.push(None);
                        proof {
                            assert(lane_views(lanes@) =~= lane_views(lanes_before).push(None));
                        }
                    }
                    let ghost lanes_grown = lanes@;
                    lanes[c] = Some(p.clone());
                    proof {
                        assert(lane_views(lanes@) =~= lane_views(lanes_grown).update(
                            c as int,
                            Some(p@),
                        ));
                    }
                    let ghost res_before = reserved@;
                    reserved.insert(p.clone(), c);
                    proof {
                        lemma_map_as_nat_insert(res_before, p@, c);
                    }
                    if c > max_col {
                        max_col = c;
                    }
                    pcol = c;
                }
                proof {
                    assert(pcol as nat == ps.pcol);
                    assert(lane_views(lanes@) == ps.lanes);
                    assert(map_as_nat(reserved@) == ps.reserved);
                    assert(max_col as nat == ps.max_column);
                    lemma_map_as_nat(rows_map@);
                }
                let to_row: usize = match rows_map.get(p.as_str()) {
                    Some(r2) => r2,
                    None => row + 1,
                };
                let edge_type = if parents.len() > 1 {
                    EdgeType::Merge
                } else if pcol != column {
                    EdgeType::Branch
                } else {
                    EdgeType::Linear
                };
                let ghost edges_before = edges@;
                edges.push(
                    GraphEdge {
                        from_sha: sha.clone(),
                        to_sha: p,
                        from_column: column,
                        to_column: pcol,
                        from_row: row,
                        to_row,
                        color,
                        edge_type,
                    },
                );
                proof {
                    let spec_edge = EdgeView {
                        from_sha: rec.sha,
                        to_sha: rec.parents[k as int],
                        from_column: column as nat,
                        to_column: ps.pcol,
                        from_row: row as nat,
                        to_row: if prev.rows.contains_key(rec.parents[k as int]) {
                            prev.rows[rec.parents[k as int]]
                        } else {
                            row as nat + 1
                        },
                        color: spec_palette_color(column as nat),
                        edge_type: classify_edge(
                            rec.parents.len(),
                            column as nat,
                            ps.pcol,
                        ),
                    };
                    assert(edge_views(edges@) =~= edge_views(edges_before).push(spec_edge));
                }
                k = k + 1;
            }

            i = i + 1;
            proof {
                assert(layout_prefix(cviews, i as int) == commit_step(st, rec, row as nat));
            }
        }

        proof {
            assert(i as int == orig.len());
        }
        CommitGraphData { nodes, edges, max_column: max_col }
    }
}

} // verus!
