//! Branch listings.
//!
//! A listing puts the checked-out branch first, then the conventional main
//! branches, then everything else alphabetically; `sort_branches` performs
//! that order and is proved exact.

use vstd::prelude::*;
use vstd::multiset::Multiset;
use vstd::seq_lib::group_to_multiset_ensures;
use crate::text::{lemma_lex_le_total, lemma_lex_le_trans, lex_le, str_eq, str_le};

verus! {

/// Whether a branch is local or remote-tracking.
#[derive(Clone, Copy, PartialEq, Eq, Structural, Debug)]
pub enum BranchKind {
    Local,
    Remote,
}

/// Branch information.
#[derive(Clone, Debug)]
pub struct BranchInfo {
    pub name: String,
    pub is_head: bool,
    pub upstream: Option<String>,
    pub branch_type: BranchKind,
}

/// Mathematical image of a branch.
pub ghost struct BranchView {
    pub name: Seq<char>,
    pub is_head: bool,
    pub upstream: Option<Seq<char>>,
    pub branch_type: BranchKind,
}

impl View for BranchInfo {
    type V = BranchView;

    open spec fn view(&self) -> BranchView {
        BranchView {
            name: self.name@,
            is_head: self.is_head,
            upstream: match self.upstream {
                Some(u) => Some(u@),
                None => None,
            },
            branch_type: self.branch_type,
        }
    }
}

/// The views of a sequence of branches.
pub open spec fn branch_views(s: Seq<BranchInfo>) -> Seq<BranchView> {
    s.map_values(|b: BranchInfo| b@)
}

/// Listing priority of a branch name: the conventional main branches come
/// before the rest.
pub open spec fn spec_priority(name: Seq<char>) -> int {
    if name == "main"@ {
        0
    } else if name == "master"@ {
        1
    } else if name == "develop"@ || name == "dev"@ {
        2
    } else {
        3
    }
}

/// Listing order: the checked-out branch first, then by priority, then by
/// name.
pub open spec fn branch_le(a: BranchView, b: BranchView) -> bool {
    if a.is_head {
        true
    } else if b.is_head {
        false
    } else if spec_priority(a.name) != spec_priority(b.name) {
        spec_priority(a.name) < spec_priority(b.name)
    } else {
        lex_le(a.name, b.name)
    }
}

proof fn lemma_branch_le_total(a: BranchView, b: BranchView)
    ensures
        branch_le(a, b) || branch_le(b, a),
{
    lemma_lex_le_total(a.name, b.name);
}

proof fn lemma_branch_le_trans(a: BranchView, b: BranchView, c: BranchView)
    requires
        branch_le(a, b),
        branch_le(b, c),
    ensures
        branch_le(a, c),
{
    if !a.is_head && !b.is_head && !c.is_head {
        if spec_priority(a.name) == spec_priority(b.name) && spec_priority(b.name)
            == spec_priority(c.name) {
            lemma_lex_le_trans(a.name, b.name, c.name);
        }
    }
}

/// `a` sorts strictly before `b`.
pub open spec fn branch_strictly_before(a: BranchView, b: BranchView) -> bool {
    branch_le(a, b) && !branch_le(b, a)
}

/// Stable insertion of `x` into a sorted run.
pub open spec fn branch_insert(x: BranchView, s: Seq<BranchView>) -> Seq<BranchView>
    decreases s.len(),
{
    if s.len() == 0 {
        seq![x]
    } else if branch_strictly_before(x, s[0]) {
        seq![x] + s
    } else {
        seq![s[0]] + branch_insert(x, s.drop_first())
    }
}

/// Stable sort of a branch listing.
pub open spec fn spec_sort_branches(s: Seq<BranchView>) -> Seq<BranchView>
    decreases s.len(),
{
    if s.len() == 0 {
        Seq::empty()
    } else {
        branch_insert(s.last(), spec_sort_branches(s.drop_last()))
    }
}

/// The run is sorted: every element is in order with every later one.
pub open spec fn branches_sorted(s: Seq<BranchView>) -> bool {
    forall|i: int, j: int| 0 <= i < j < s.len() ==> branch_le(#[trigger] s[i], #[trigger] s[j])
}

proof fn lemma_branch_insert_at(x: BranchView, s: Seq<BranchView>, pos: int)
    requires
        0 <= pos <= s.len(),
        forall|l: int| 0 <= l < pos ==> !branch_strictly_before(x, #[trigger] s[l]),
        pos == s.len() || branch_strictly_before(x, s[pos]),
    ensures
        branch_insert(x, s) == s.insert(pos, x),
    decreases s.len(),
{
    if s.len() == 0 {
        assert(branch_insert(x, s) =~= s.insert(0, x));
    } else if pos == 0 {
        assert(branch_insert(x, s) =~= s.insert(0, x));
    } else {
        lemma_branch_insert_at(x, s.drop_first(), pos - 1);
        assert(branch_insert(x, s) =~= s.insert(pos, x));
    }
}

proof fn lemma_branch_insert_sorted(x: BranchView, s: Seq<BranchView>)
    requires
        branches_sorted(s),
    ensures
        branches_sorted(branch_insert(x, s)),
        branch_insert(x, s).to_multiset() == s.to_multiset().insert(x),
        branch_insert(x, s).len() == s.len() + 1,
    decreases s.len(),
{
    broadcast use group_to_multiset_ensures;

    if s.len() == 0 {
        assert(branch_insert(x, s) =~= Seq::<BranchView>::empty().push(x));
        assert(branch_insert(x, s).to_multiset() =~= s.to_multiset().insert(x));
    } else if branch_strictly_before(x, s[0]) {
        let out = seq![x] + s;
        assert forall|i: int, j: int| 0 <= i < j < out.len() implies branch_le(
            #[trigger] out[i],
            #[trigger] out[j],
        ) by {
            if i == 0 && j > 1 {
                assert(out[j] == s[j - 1]);
                lemma_branch_le_trans(x, s[0], s[j - 1]);
            }
        }
        assert(out =~= s.insert(0, x));
        assert(out.to_multiset() =~= s.to_multiset().insert(x));
    } else {
        lemma_branch_insert_sorted(x, s.drop_first());
        let rest = branch_insert(x, s.drop_first());
        let out = seq![s[0]] + rest;
        assert(out =~= branch_insert(x, s));
        lemma_branch_le_total(x, s[0]);
        assert(branch_le(s[0], x));
        assert forall|i: int, j: int| 0 <= i < j < out.len() implies branch_le(
            #[trigger] out[i],
            #[trigger] out[j],
        ) by {
            if i == 0 {
                assert(rest.to_multiset().contains(out[j]));
                if out[j] == x {
                } else {
                    assert(s.drop_first().to_multiset().contains(out[j]));
                    let w = choose|w: int|
                        0 <= w < s.drop_first().len() && s.drop_first()[w] == out[j];
                    assert(branch_le(s[0], s[w + 1]));
                }
            }
        }
        vstd::seq_lib::lemma_multiset_commutative(seq![s[0]], rest);
        assert(s =~= seq![s[0]] + s.drop_first());
        vstd::seq_lib::lemma_multiset_commutative(seq![s[0]], s.drop_first());
        assert(seq![s[0]].to_multiset() =~= Multiset::<BranchView>::empty().insert(s[0]));
        assert(out.to_multiset() =~= s.to_multiset().insert(x));
    }
}

/// The sorted listing is sorted and holds exactly the original branches.
pub proof fn lemma_sort_branches_ensures(s: Seq<BranchView>)
    ensures
        branches_sorted(spec_sort_branches(s)),
        spec_sort_branches(s).to_multiset() == s.to_multiset(),
        spec_sort_branches(s).len() == s.len(),
    decreases s.len(),
{
    broadcast use group_to_multiset_ensures;

    if s.len() > 0 {
        lemma_sort_branches_ensures(s.drop_last());
        lemma_branch_insert_sorted(s.last(), spec_sort_branches(s.drop_last()));
        assert(s =~= s.drop_last().push(s.last()));
        assert(s.drop_last().push(s.last()).to_multiset() =~= s.drop_last().to_multiset().insert(
            s.last(),
        ));
    }
}

/// Listing priority of a branch name.
fn priority(name: &str) -> (r: u8)
    ensures
        r as int == spec_priority(name@),
{
    if str_eq(name, "main") {
        0
    } else if str_eq(name, "master") {
        1
    } else if str_eq(name, "develop") || str_eq(name, "dev") {
        2
    } else {
        3
    }
}

/// Listing order on two branches.
fn branch_le_exec(a: &BranchInfo, b: &BranchInfo) -> (r: bool)
    ensures
        r == branch_le(a@, b@),
{
    if a.is_head {
        true
    } else if b.is_head {
        false
    } else {
        let pa = priority(a.name.as_str());
        let pb = priority(b.name.as_str());
        if pa != pb {
            pa < pb
        } else {
            str_le(a.name.as_str(), b.name.as_str())
        }
    }
}

/// Position at which `x` lands in the sorted run `out`.
fn find_branch_pos(out: &Vec<BranchInfo>, x: &BranchInfo) -> (pos: usize)
    ensures
        pos <= out@.len(),
        forall|l: int|
            0 <= l < pos ==> !branch_strictly_before(x@, #[trigger] branch_views(out@)[l]),
        pos == out@.len() || branch_strictly_before(x@, branch_views(out@)[pos as int]),
{
    let mut pos: usize = 0;
    while pos < out.len()
        invariant
            pos <= out@.len(),
            forall|l: int|
                0 <= l < pos ==> !branch_strictly_before(x@, #[trigger] branch_views(out@)[l]),
        decreases out@.len() - pos,
    {
        let le_xy = branch_le_exec(x, &out[pos]);
        let le_yx = branch_le_exec(&out[pos], x);
        if le_xy && !le_yx {
            proof {
                assert(branch_strictly_before(x@, branch_views(out@)[pos as int]));
            }
            return pos;
        }
        proof {
            assert(!branch_strictly_before(x@, branch_views(out@)[pos as int]));
        }
        pos = pos + 1;
    }
    pos
}

/// Sorts a branch listing: the checked-out branch first, then the
/// conventional main branches, then alphabetically, equals keeping their
/// original order.
pub fn sort_branches(branches: Vec<BranchInfo>) -> (r: Vec<BranchInfo>)
    ensures
        branch_views(r@) == spec_sort_branches(branch_views(branches@)),
{
    let ghost orig = branch_views(branches@);
    let mut branches = branches;
    let total = branches.len();
    let mut out: Vec<BranchInfo> = Vec::new();
    let mut i: usize = 0;
    proof {
        assert(orig.subrange(0, 0) =~= Seq::<BranchView>::empty());
    }
    while branches.len() > 0
        invariant
            total == orig.len(),
            i + branches@.len() == orig.len(),
            branch_views(branches@) == orig.subrange(i as int, orig.len() as int),
            branch_views(out@) == spec_sort_branches(orig.subrange(0, i as int)),
        decreases branches@.len(),
    {
        let ghost pre_exec = branches@;
        let x = branches.remove(0);
        proof {
            assert(branch_views(pre_exec)[0] == orig[i as int]);
            assert(x@ == orig[i as int]);
            assert forall|l: int|
                0 <= l < branches@.len() implies branch_views(branches@)[l] == orig.subrange(
                i + 1,
                orig.len() as int,
            )[l] by {
                assert(branches@[l] == pre_exec[l + 1]);
                assert(branch_views(pre_exec)[l + 1] == pre_exec[l + 1]@);
            }
            assert(branch_views(branches@) =~= orig.subrange(i + 1, orig.len() as int));
        }
        let ghost sorted = branch_views(out@);
        let pos = find_branch_pos(&out, &x);
        proof {
            lemma_branch_insert_at(x@, sorted, pos as int);
        }
        let ghost xv = x@;
        out.insert(pos, x);
        proof {
            assert(branch_views(out@) =~= sorted.insert(pos as int, xv));
            assert(orig.subrange(0, i + 1).drop_last() =~= orig.subrange(0, i as int));
            assert(orig.subrange(0, i + 1).last() == orig[i as int]);
        }
        i = i + 1;
    }
    proof {
        assert(orig.subrange(0, orig.len() as int) =~= orig);
    }
    out
}

/// The local branches of a listing, in listing order.
pub fn local_branches(branches: &Vec<BranchInfo>) -> (r: Vec<BranchInfo>)
    ensures
        branch_views(r@) == branch_views(branches@).filter(
            |b: BranchView| b.branch_type == BranchKind::Local,
        ),
{
    filter_kind(branches, BranchKind::Local)
}

/// The remote-tracking branches of a listing, in listing order.
pub fn remote_branches(branches: &Vec<BranchInfo>) -> (r: Vec<BranchInfo>)
    ensures
        branch_views(r@) == branch_views(branches@).filter(
            |b: BranchView| b.branch_type == BranchKind::Remote,
        ),
{
    filter_kind(branches, BranchKind::Remote)
}

fn filter_kind(branches: &Vec<BranchInfo>, kind: BranchKind) -> (r: Vec<BranchInfo>)
    ensures
        branch_views(r@) == branch_views(branches@).filter(
            |b: BranchView| b.branch_type == kind,
        ),
{
    let mut out: Vec<BranchInfo> = Vec::new();
    let mut i: usize = 0;
    let ghost all = branch_views(branches@);
    let ghost pred = |b: BranchView| b.branch_type == kind;
    proof {
        assert(all.subrange(0, 0) =~= Seq::<BranchView>::empty());
        assert(branch_views(out@) =~= all.subrange(0, 0).filter(pred));
    }
    while i < branches.len()
        invariant
            i <= branches@.len(),
            all == branch_views(branches@),
            pred == (|b: BranchView| b.branch_type == kind),
            branch_views(out@) == all.subrange(0, i as int).filter(pred),
        decreases branches@.len() - i,
    {
        proof {
            assert(all.subrange(0, i + 1).drop_last() =~= all.subrange(0, i as int));
            assert(all.subrange(0, i + 1).last() == all[i as int]);
            reveal_with_fuel(Seq::filter, 2);
        }
        let keep = match (branches[i].branch_type, kind) {
            (BranchKind::Local, BranchKind::Local) => true,
            (BranchKind::Remote, BranchKind::Remote) => true,
            _ => false,
        };
        if keep {
            let ghost out_before = branch_views(out@);
            let ghost xv = branches@[i as int]@;
            out.push(duplicate_branch(&branches[i]));
            proof {
                assert(branch_views(out@) =~= out_before.push(xv));
            }
        }
        i = i + 1;
    }
    proof {
        assert(all.subrange(0, all.len() as int) =~= all);
    }
    out
}

/// A field-for-field copy whose view provably equals the original's.
fn duplicate_branch(b: &BranchInfo) -> (r: BranchInfo)
    ensures
        r@ == b@,
{
    BranchInfo {
        name: b.name.clone(),
        is_head: b.is_head,
        upstream: match &b.upstream {
            Some(u) => Some(u.clone()),
            None => None,
        },
        branch_type: b.branch_type,
    }
}

} // verus!
