//! From backend output to a laid-out graph.
//!
//! The backend (opened, walked and read at the application's edge) hands over
//! plain values: one `RawCommit` per walked commit in walk order, and
//! `(name, target)` pairs for branches, remote branches and tags.  Everything
//! from there on — indexing the references, assembling the annotated records
//! and laying out the graph — is verified.

use vstd::prelude::*;
use crate::graph::{CommitGraphData, CommitInfo, CommitView, commit_views, spec_layout};
use crate::idmap::{NameIndex, seq_views};

verus! {

/// What a backend lookup yields for one commit: identifier, summary message,
/// author name and address, commit time and parent identifiers, with the
/// parts the backend may fail to provide left optional.
pub struct RawCommit {
    pub sha: String,
    pub message: Option<String>,
    pub author: Option<String>,
    pub email: Option<String>,
    pub timestamp: i64,
    pub parents: Vec<String>,
}

/// Mathematical image of a raw commit.
pub ghost struct RawCommitView {
    pub sha: Seq<char>,
    pub message: Option<Seq<char>>,
    pub author: Option<Seq<char>>,
    pub email: Option<Seq<char>>,
    pub timestamp: int,
    pub parents: Seq<Seq<char>>,
}

impl View for RawCommit {
    type V = RawCommitView;

    open spec fn view(&self) -> RawCommitView {
        RawCommitView {
            sha: self.sha@,
            message: match self.message {
                Some(m) => Some(m@),
                None => None,
            },
            author: match self.author {
                Some(a) => Some(a@),
                None => None,
            },
            email: match self.email {
                Some(e) => Some(e@),
                None => None,
            },
            timestamp: self.timestamp as int,
            parents: seq_views(self.parents@),
        }
    }
}

/// The views of a sequence of raw commits.
pub open spec fn raw_views(s: Seq<RawCommit>) -> Seq<RawCommitView> {
    s.map_values(|r: RawCommit| r@)
}

/// The views of a sequence of `(name, target)` reference pairs.
pub open spec fn pair_views(s: Seq<(String, String)>) -> Seq<(Seq<char>, Seq<char>)> {
    s.map_values(|p: (String, String)| (p.0@, p.1@))
}

/// The commit-to-names map denoted by a list of `(name, target)` pairs: each
/// pair appends its name to its target's list, in pair order.
pub open spec fn spec_ref_index(pairs: Seq<(Seq<char>, Seq<char>)>) -> Map<
    Seq<char>,
    Seq<Seq<char>>,
>
    decreases pairs.len(),
{
    if pairs.len() == 0 {
        Map::empty()
    } else {
        let m = spec_ref_index(pairs.drop_last());
        let name = pairs.last().0;
        let sha = pairs.last().1;
        m.insert(
            sha,
            (if m.contains_key(sha) {
                m[sha]
            } else {
                Seq::<Seq<char>>::empty()
            }).push(name),
        )
    }
}

/// The names a reference map binds to `sha`; empty when none are.
pub open spec fn names_of(m: Map<Seq<char>, Seq<Seq<char>>>, sha: Seq<char>) -> Seq<Seq<char>> {
    if m.contains_key(sha) {
        m[sha]
    } else {
        Seq::empty()
    }
}

/// Builds the commit-to-names index of a reference listing.
pub fn build_ref_index(pairs: &Vec<(String, String)>) -> (r: NameIndex)
    ensures
        r@ == spec_ref_index(pair_views(pairs@)),
{
    let mut index = NameIndex::new();
    let mut i: usize = 0;
    proof {
        assert(pair_views(pairs@).subrange(0, 0) =~= Seq::<(Seq<char>, Seq<char>)>::empty());
    }
    while i < pairs.len()
        invariant
            i <= pairs@.len(),
            index@ == spec_ref_index(pair_views(pairs@).subrange(0, i as int)),
        decreases pairs@.len() - i,
    {
        let name = pairs[i].0.clone();
        let sha = pairs[i].1.clone();
        index.add(sha, name);
        proof {
            let pv = pair_views(pairs@);
            assert(pv.subrange(0, i + 1).drop_last() =~= pv.subrange(0, i as int));
            assert(pv.subrange(0, i + 1).last() == pv[i as int]);
        }
        i = i + 1;
    }
    proof {
        assert(pair_views(pairs@).subrange(0, pairs@.len() as int) =~= pair_views(pairs@));
    }
    index
}

/// The annotated record of one raw commit, given the three reference maps.
pub open spec fn spec_annotate(
    raw: RawCommitView,
    branches: Map<Seq<char>, Seq<Seq<char>>>,
    remotes: Map<Seq<char>, Seq<Seq<char>>>,
    tags: Map<Seq<char>, Seq<Seq<char>>>,
) -> CommitView {
    let b = names_of(branches, raw.sha);
    CommitView {
        sha: raw.sha,
        short_sha: raw.sha.subrange(0, 7),
        message: match raw.message {
            Some(m) => m,
            None => Seq::empty(),
        },
        author: match raw.author {
            Some(a) => a,
            None => "Unknown"@,
        },
        email: match raw.email {
            Some(e) => e,
            None => Seq::empty(),
        },
        timestamp: raw.timestamp,
        parents: raw.parents,
        branch: if b.len() > 0 {
            Some(b[0])
        } else {
            None
        },
        branches: b,
        remotes: names_of(remotes, raw.sha),
        tags: names_of(tags, raw.sha),
    }
}

/// The annotated records of a whole window.
pub open spec fn spec_annotate_all(
    raws: Seq<RawCommitView>,
    branches: Map<Seq<char>, Seq<Seq<char>>>,
    remotes: Map<Seq<char>, Seq<Seq<char>>>,
    tags: Map<Seq<char>, Seq<Seq<char>>>,
) -> Seq<CommitView> {
    raws.map_values(|r: RawCommitView| spec_annotate(r, branches, remotes, tags))
}

impl CommitGraphData {
    /// Builds the graph of a walked window: indexes the branch, remote and
    /// tag listings, annotates each commit with the names bound to it and
    /// the data-quality defaults, and lays the window out.
    ///
    /// The identifiers are fixed-width hex strings, so each holds at least
    /// the seven characters the short form takes.
    pub fn build(
        raws: Vec<RawCommit>,
        branch_refs: &Vec<(String, String)>,
        remote_refs: &Vec<(String, String)>,
        tag_refs: &Vec<(String, String)>,
    ) -> (r: CommitGraphData)
        requires
            forall|i: int| 0 <= i < raws@.len() ==> (#[trigger] raws@[i])@.sha.len() >= 7,
        ensures
            ({
                let annotated = spec_annotate_all(
                    raw_views(raws@),
                    spec_ref_index(pair_views(branch_refs@)),
                    spec_ref_index(pair_views(remote_refs@)),
                    spec_ref_index(pair_views(tag_refs@)),
                );
                &&& r@.nodes == spec_layout(annotated).nodes
                &&& r@.edges == spec_layout(annotated).edges
                &&& r@.max_column == spec_layout(annotated).max_column
            }),
    {
        let branches = build_ref_index(branch_refs);
        let remotes = build_ref_index(remote_refs);
        let tags = build_ref_index(tag_refs);
        let ghost bm = branches@;
        let ghost rm = remotes@;
        let ghost tm = tags@;
        let ghost raws_ghost = raws@;

        let mut raws = raws;
        let mut records: Vec<CommitInfo> = Vec::new();
        let mut i: usize = 0;
        let n = raws.len();
        while raws.len() > 0
            invariant
                n == raws_ghost.len(),
                i + raws@.len() == n,
                raws@ == raws_ghost.subrange(i as int, n as int),
                forall|j: int|
                    0 <= j < raws_ghost.len() ==> (#[trigger] raws_ghost[j])@.sha.len() >= 7,
                bm == spec_ref_index(pair_views(branch_refs@)),
                rm == spec_ref_index(pair_views(remote_refs@)),
                tm == spec_ref_index(pair_views(tag_refs@)),
                branches@ == bm,
                remotes@ == rm,
                tags@ == tm,
                commit_views(records@) == spec_annotate_all(
                    raw_views(raws_ghost.subrange(0, i as int)),
                    bm,
                    rm,
                    tm,
                ),
            decreases raws@.len(),
        {
            let ghost pre = raws@;
            let raw = raws.remove(0);
            proof {
                assert(pre[0] == raws_ghost[i as int]);
                assert(raws@ =~= raws_ghost.subrange(i + 1, n as int));
            }
            let branch_names = branches.get(raw.sha.as_str());
            let remote_names = remotes.get(raw.sha.as_str());
            let tag_names = tags.get(raw.sha.as_str());
            proof {
                if !bm.contains_key(raw.sha@) {
                    assert(seq_views(branch_names@) =~= names_of(bm, raw.sha@));
                }
                if !rm.contains_key(raw.sha@) {
                    assert(seq_views(remote_names@) =~= names_of(rm, raw.sha@));
                }
                if !tm.contains_key(raw.sha@) {
                    assert(seq_views(tag_names@) =~= names_of(tm, raw.sha@));
                }
            }
            let ghost rv = raw@;
            let record = CommitInfo::from_parts(
                raw.sha,
                raw.message,
                raw.author,
                raw.email,
                raw.timestamp,
                raw.parents,
                branch_names,
                remote_names,
                tag_names,
            );
            proof {
                assert(record@ == spec_annotate(rv, bm, rm, tm));
            }
            let ghost recs_before = records@;
            records.push(record);
            proof {
                assert(commit_views(records@) =~= commit_views(recs_before).push(
                    spec_annotate(rv, bm, rm, tm),
                ));
                assert(raw_views(raws_ghost.subrange(0, i + 1)) =~= raw_views(
                    raws_ghost.subrange(0, i as int),
                ).push(rv));
                assert(spec_annotate_all(
                    raw_views(raws_ghost.subrange(0, i + 1)),
                    bm,
                    rm,
                    tm,
                ) =~= spec_annotate_all(
                    raw_views(raws_ghost.subrange(0, i as int)),
                    bm,
                    rm,
                    tm,
                ).push(spec_annotate(rv, bm, rm, tm)));
            }
            i = i + 1;
        }
        proof {
            assert(raws_ghost.subrange(0, n as int) =~= raws_ghost);
        }
        CommitGraphData::from_records(records)
    }
}

} // verus!
