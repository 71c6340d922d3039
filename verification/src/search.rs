//! In-memory commit search over already-loaded graph nodes.
//!
//! A case-insensitive substring search over message and author, and a prefix
//! search over the full and short identifiers, truncated to a result cap.
//! Case folding is delegated to the standard library and named `lower_of`;
//! everything around it is proved exactly.

use vstd::prelude::*;
use vstd::string::*;
use crate::graph::{CommitGraphData, CommitInfo, CommitView, NodeView, commit_views, node_views};
use crate::text::{
    lower_of, spec_contains, spec_starts_with, str_contains, str_starts_with, to_lowercase,
};

verus! {

/// Whether a commit answers the folded query: the query occurs in its folded
/// message or author, or prefixes its folded identifier, full or short.
pub open spec fn commit_matches(c: CommitView, q: Seq<char>) -> bool {
    ||| spec_contains(lower_of(c.message), q)
    ||| spec_contains(lower_of(c.author), q)
    ||| spec_starts_with(lower_of(c.sha), q)
    ||| spec_starts_with(lower_of(c.short_sha), q)
}

/// The commits of `nodes`, in order, that answer the folded query `q`, at
/// most `limit` of them.
pub open spec fn spec_search(nodes: Seq<NodeView>, q: Seq<char>, limit: nat) -> Seq<CommitView>
    decreases nodes.len(),
{
    if nodes.len() == 0 || limit == 0 {
        Seq::empty()
    } else if commit_matches(nodes[0].commit, q) {
        seq![nodes[0].commit] + spec_search(nodes.drop_first(), q, (limit - 1) as nat)
    } else {
        spec_search(nodes.drop_first(), q, limit)
    }
}

/// Does this commit answer the folded query?
fn matches_query(c: &CommitInfo, folded: &str) -> (r: bool)
    ensures
        r == commit_matches(c@, folded@),
{
    let message = to_lowercase(c.message.as_str());
    if str_contains(message.as_str(), folded) {
        return true;
    }
    let author = to_lowercase(c.author.as_str());
    if str_contains(author.as_str(), folded) {
        return true;
    }
    let sha = to_lowercase(c.sha.as_str());
    if str_starts_with(sha.as_str(), folded) {
        return true;
    }
    let short = to_lowercase(c.short_sha.as_str());
    str_starts_with(short.as_str(), folded)
}

impl CommitGraphData {
    /// Searches the loaded nodes for `query`, case-insensitively, and
    /// returns the matching commits in their original order, at most `limit`
    /// of them.  An empty query returns no results without scanning.
    pub fn search_commits(&self, query: &str, limit: usize) -> (r: Vec<CommitInfo>)
        ensures
            lower_of(query@).len() == 0 ==> r@.len() == 0,
            lower_of(query@).len() > 0 ==> commit_views(r@) == spec_search(
                node_views(self.nodes@),
                lower_of(query@),
                limit as nat,
            ),
    {
        let folded = to_lowercase(query);
        let mut out: Vec<CommitInfo> = Vec::new();
        if folded.as_str().is_empty() {
            return out;
        }
        let ghost all = node_views(self.nodes@);
        let ghost q = lower_of(query@);
        let mut i: usize = 0;
        proof {
            assert(all.subrange(0, all.len() as int) =~= all);
            assert(commit_views(out@) + spec_search(all, q, limit as nat) =~= spec_search(
                all,
                q,
                limit as nat,
            ));
        }
        while i < self.nodes.len() && out.len() < limit
            invariant
                i <= self.nodes@.len(),
                out@.len() <= limit,
                all == node_views(self.nodes@),
                q == folded@,
                spec_search(all, q, limit as nat) == commit_views(out@) + spec_search(
                    all.subrange(i as int, all.len() as int),
                    q,
                    (limit - out@.len()) as nat,
                ),
            decreases self.nodes@.len() - i,
        {
            let ghost rest = all.subrange(i as int, all.len() as int);
            proof {
                assert(rest[0] == all[i as int]);
                assert(rest.drop_first() =~= all.subrange(i + 1, all.len() as int));
                assert(all[i as int].commit == self.nodes@[i as int]@.commit);
            }
            if matches_query(&self.nodes[i].commit, folded.as_str()) {
                let ghost out_before = out@;
                out.push(self.nodes[i].commit.duplicate());
                proof {
                    assert(commit_views(out@) =~= commit_views(out_before).push(
                        all[i as int].commit,
                    ));
                    assert(commit_views(out_before) + (seq![all[i as int].commit] + spec_search(
                        rest.drop_first(),
                        q,
                        (limit - out@.len()) as nat,
                    )) =~= commit_views(out@) + spec_search(
                        rest.drop_first(),
                        q,
                        (limit - out@.len()) as nat,
                    ));
                }
            }
            i = i + 1;
        }
        proof {
            if out@.len() == limit {
                assert(spec_search(
                    all.subrange(i as int, all.len() as int),
                    q,
                    (limit - out@.len()) as nat,
                ) =~= Seq::<CommitView>::empty());
            } else {
                assert(i as int == all.len());
                assert(all.subrange(i as int, all.len() as int) =~= Seq::<NodeView>::empty());
            }
            assert(commit_views(out@) + Seq::<CommitView>::empty() =~= commit_views(out@));
        }
        out
    }
}

} // verus!
