//! Working-directory file status.
//!
//! A backend status scan yields, per path, a set of flags; classification
//! turns each flagged path into staged and unstaged entries, and the listing
//! is sorted with staged entries first, then by path.

use vstd::prelude::*;
use vstd::multiset::Multiset;
use vstd::seq_lib::group_to_multiset_ensures;
use crate::text::{lemma_lex_le_total, lemma_lex_le_trans, lex_le, str_le};

verus! {

/// Status of a file in the working directory.
#[derive(Clone, Copy, PartialEq, Eq, Structural, Debug)]
pub enum FileStatusType {
    Added,
    Modified,
    Deleted,
    Renamed,
    Untracked,
    Conflicted,
}

/// File status entry.
#[derive(Clone, Debug)]
pub struct FileStatus {
    pub path: String,
    pub status: FileStatusType,
    pub staged: bool,
    /// Old path for renamed files.
    pub old_path: Option<String>,
}

/// Mathematical image of a status entry.
pub ghost struct FileStatusView {
    pub path: Seq<char>,
    pub status: FileStatusType,
    pub staged: bool,
    pub old_path: Option<Seq<char>>,
}

impl View for FileStatus {
    type V = FileStatusView;

    open spec fn view(&self) -> FileStatusView {
        FileStatusView {
            path: self.path@,
            status: self.status,
            staged: self.staged,
            old_path: match self.old_path {
                Some(p) => Some(p@),
                None => None,
            },
        }
    }
}

/// The views of a sequence of status entries.
pub open spec fn status_views(s: Seq<FileStatus>) -> Seq<FileStatusView> {
    s.map_values(|f: FileStatus| f@)
}

impl FileStatus {
    /// Display color of the entry's status.
    pub fn status_color(&self) -> (c: u32)
        ensures
            c == spec_status_color(self.status),
    {
        match self.status {
            FileStatusType::Added => 0xa6e3a1,
            FileStatusType::Modified => 0xfab387,
            FileStatusType::Deleted => 0xf38ba8,
            FileStatusType::Renamed => 0x89b4fa,
            FileStatusType::Untracked => 0x9399b2,
            FileStatusType::Conflicted => 0xf9e2af,
        }
    }

    /// Display letter of the entry's status.
    pub fn status_char(&self) -> (c: char)
        ensures
            c == spec_status_char(self.status),
    {
        match self.status {
            FileStatusType::Added => 'A',
            FileStatusType::Modified => 'M',
            FileStatusType::Deleted => 'D',
            FileStatusType::Renamed => 'R',
            FileStatusType::Untracked => '?',
            FileStatusType::Conflicted => '!',
        }
    }
}

/// Display color of a status.
pub open spec fn spec_status_color(s: FileStatusType) -> u32 {
    match s {
        FileStatusType::Added => 0xa6e3a1,
        FileStatusType::Modified => 0xfab387,
        FileStatusType::Deleted => 0xf38ba8,
        FileStatusType::Renamed => 0x89b4fa,
        FileStatusType::Untracked => 0x9399b2,
        FileStatusType::Conflicted => 0xf9e2af,
    }
}

/// Display letter of a status.
pub open spec fn spec_status_char(s: FileStatusType) -> char {
    match s {
        FileStatusType::Added => 'A',
        FileStatusType::Modified => 'M',
        FileStatusType::Deleted => 'D',
        FileStatusType::Renamed => 'R',
        FileStatusType::Untracked => '?',
        FileStatusType::Conflicted => '!',
    }
}

/// The flags a backend status scan reports for one path.
#[derive(Clone, Copy, Debug)]
pub struct StatusFlags {
    pub index_new: bool,
    pub index_modified: bool,
    pub index_deleted: bool,
    pub index_renamed: bool,
    pub wt_new: bool,
    pub wt_modified: bool,
    pub wt_deleted: bool,
    pub wt_renamed: bool,
    pub conflicted: bool,
}

/// The entries one flagged path contributes: at most one staged entry, at
/// most one unstaged entry, and a conflict entry.
pub open spec fn spec_entry_records(
    path: Seq<char>,
    f: StatusFlags,
    old_index: Option<Seq<char>>,
    old_wt: Option<Seq<char>>,
) -> Seq<FileStatusView> {
    let staged: Seq<FileStatusView> = if f.index_new {
        seq![
            FileStatusView { path, status: FileStatusType::Added, staged: true, old_path: None },
        ]
    } else if f.index_modified {
        seq![
            FileStatusView {
                path,
                status: FileStatusType::Modified,
                staged: true,
                old_path: None,
            },
        ]
    } else if f.index_deleted {
        seq![
            FileStatusView { path, status: FileStatusType::Deleted, staged: true, old_path: None },
        ]
    } else if f.index_renamed {
        seq![
            FileStatusView {
                path,
                status: FileStatusType::Renamed,
                staged: true,
                old_path: old_index,
            },
        ]
    } else {
        Seq::empty()
    };
    let unstaged: Seq<FileStatusView> = if f.wt_new {
        seq![
            FileStatusView {
                path,
                status: FileStatusType::Untracked,
                staged: false,
                old_path: None,
            },
        ]
    } else if f.wt_modified {
        seq![
            FileStatusView {
                path,
                status: FileStatusType::Modified,
                staged: false,
                old_path: None,
            },
        ]
    } else if f.wt_deleted {
        seq![
            FileStatusView {
                path,
                status: FileStatusType::Deleted,
                staged: false,
                old_path: None,
            },
        ]
    } else if f.wt_renamed {
        seq![
            FileStatusView {
                path,
                status: FileStatusType::Renamed,
                staged: false,
                old_path: old_wt,
            },
        ]
    } else {
        Seq::empty()
    };
    let conflict: Seq<FileStatusView> = if f.conflicted {
        seq![
            FileStatusView {
                path,
                status: FileStatusType::Conflicted,
                staged: false,
                old_path: None,
            },
        ]
    } else {
        Seq::empty()
    };
    staged + unstaged + conflict
}

/// The entries a flagged path contributes.
pub fn entry_records(
    path: &String,
    f: StatusFlags,
    old_index: &Option<String>,
    old_wt: &Option<String>,
) -> (r: Vec<FileStatus>)
    ensures
        status_views(r@) == spec_entry_records(
            path@,
            f,
            match *old_index {
                Some(ref p) => Some(p@),
                None => None,
            },
            match *old_wt {
                Some(ref p) => Some(p@),
                None => None,
            },
        ),
{
    let mut out: Vec<FileStatus> = Vec::new();
    if f.index_new {
        out.push(
            FileStatus {
                path: path.clone(),
                status: FileStatusType::Added,
                staged: true,
                old_path: None,
            },
        );
    } else if f.index_modified {
        out.push(
            FileStatus {
                path: path.clone(),
                status: FileStatusType::Modified,
                staged: true,
                old_path: None,
            },
        );
    } else if f.index_deleted {
        out.push(
            FileStatus {
                path: path.clone(),
                status: FileStatusType::Deleted,
                staged: true,
                old_path: None,
            },
        );
    } else if f.index_renamed {
        out.push(
            FileStatus {
                path: path.clone(),
                status: FileStatusType::Renamed,
                staged: true,
                old_path: match old_index {
                    Some(p) => Some(p.clone()),
                    None => None,
                },
            },
        );
    }
    if f.wt_new {
        out.push(
            FileStatus {
                path: path.clone(),
                status: FileStatusType::Untracked,
                staged: false,
                old_path: None,
            },
        );
    } else if f.wt_modified {
        out.push(
            FileStatus {
                path: path.clone(),
                status: FileStatusType::Modified,
                staged: false,
                old_path: None,
            },
        );
    } else if f.wt_deleted {
        out.push(
            FileStatus {
                path: path.clone(),
                status: FileStatusType::Deleted,
                staged: false,
                old_path: None,
            },
        );
    } else if f.wt_renamed {
        out.push(
            FileStatus {
                path: path.clone(),
                status: FileStatusType::Renamed,
                staged: false,
                old_path: match old_wt {
                    Some(p) => Some(p.clone()),
                    None => None,
                },
            },
        );
    }
    if f.conflicted {
        out.push(
            FileStatus {
                path: path.clone(),
                status: FileStatusType::Conflicted,
                staged: false,
                old_path: None,
            },
        );
    }
    proof {
        assert(status_views(out@) =~= spec_entry_records(
            path@,
            f,
            match *old_index {
                Some(ref p) => Some(p@),
                None => None,
            },
            match *old_wt {
                Some(ref p) => Some(p@),
                None => None,
            },
        ));
    }
    out
}

/// Listing order: staged entries first, then by path.
pub open spec fn status_le(a: FileStatusView, b: FileStatusView) -> bool {
    if a.staged != b.staged {
        a.staged
    } else {
        lex_le(a.path, b.path)
    }
}

/// `a` sorts strictly before `b`.
pub open spec fn status_strictly_before(a: FileStatusView, b: FileStatusView) -> bool {
    status_le(a, b) && !status_le(b, a)
}

/// Stable insertion of `x` into a sorted run.
pub open spec fn status_insert(x: FileStatusView, s: Seq<FileStatusView>) -> Seq<FileStatusView>
    decreases s.len(),
{
    if s.len() == 0 {
        seq![x]
    } else if status_strictly_before(x, s[0]) {
        seq![x] + s
    } else {
        seq![s[0]] + status_insert(x, s.drop_first())
    }
}

/// Stable sort of a status listing.
pub open spec fn spec_sort_statuses(s: Seq<FileStatusView>) -> Seq<FileStatusView>
    decreases s.len(),
{
    if s.len() == 0 {
        Seq::empty()
    } else {
        status_insert(s.last(), spec_sort_statuses(s.drop_last()))
    }
}

/// The run is sorted: every element is in order with every later one.
pub open spec fn statuses_sorted(s: Seq<FileStatusView>) -> bool {
    forall|i: int, j: int| 0 <= i < j < s.len() ==> status_le(#[trigger] s[i], #[trigger] s[j])
}

proof fn lemma_status_le_total(a: FileStatusView, b: FileStatusView)
    ensures
        status_le(a, b) || status_le(b, a),
{
    lemma_lex_le_total(a.path, b.path);
}

proof fn lemma_status_le_trans(a: FileStatusView, b: FileStatusView, c: FileStatusView)
    requires
        status_le(a, b),
        status_le(b, c),
    ensures
        status_le(a, c),
{
    if a.staged == b.staged && b.staged == c.staged {
        lemma_lex_le_trans(a.path, b.path, c.path);
    }
}

proof fn lemma_status_insert_at(x: FileStatusView, s: Seq<FileStatusView>, pos: int)
    requires
        0 <= pos <= s.len(),
        forall|l: int| 0 <= l < pos ==> !status_strictly_before(x, #[trigger] s[l]),
        pos == s.len() || status_strictly_before(x, s[pos]),
    ensures
        status_insert(x, s) == s.insert(pos, x),
    decreases s.len(),
{
    if s.len() == 0 {
        assert(status_insert(x, s) =~= s.insert(0, x));
    } else if pos == 0 {
        assert(status_insert(x, s) =~= s.insert(0, x));
    } else {
        lemma_status_insert_at(x, s.drop_first(), pos - 1);
        assert(status_insert(x, s) =~= s.insert(pos, x));
    }
}

proof fn lemma_status_insert_sorted(x: FileStatusView, s: Seq<FileStatusView>)
    requires
        statuses_sorted(s),
    ensures
        statuses_sorted(status_insert(x, s)),
        status_insert(x, s).to_multiset() == s.to_multiset().insert(x),
        status_insert(x, s).len() == s.len() + 1,
    decreases s.len(),
{
    broadcast use group_to_multiset_ensures;

    if s.len() == 0 {
        assert(status_insert(x, s) =~= Seq::<FileStatusView>::empty().push(x));
        assert(status_insert(x, s).to_multiset() =~= s.to_multiset().insert(x));
    } else if status_strictly_before(x, s[0]) {
        let out = seq![x] + s;
        assert forall|i: int, j: int| 0 <= i < j < out.len() implies status_le(
            #[trigger] out[i],
            #[trigger] out[j],
        ) by {
            if i == 0 && j > 1 {
                assert(out[j] == s[j - 1]);
                lemma_status_le_trans(x, s[0], s[j - 1]);
            }
        }
        assert(out =~= s.insert(0, x));
        assert(out.to_multiset() =~= s.to_multiset().insert(x));
    } else {
        lemma_status_insert_sorted(x, s.drop_first());
        let rest = status_insert(x, s.drop_first());
        let out = seq![s[0]] + rest;
        assert(out =~= status_insert(x, s));
        lemma_status_le_total(x, s[0]);
        assert(status_le(s[0], x));
        assert forall|i: int, j: int| 0 <= i < j < out.len() implies status_le(
            #[trigger] out[i],
            #[trigger] out[j],
        ) by {
            if i == 0 {
                assert(rest.to_multiset().contains(out[j]));
                if out[j] == x {
                } else {
                    assert(s.drop_first().to_multiset().contains(out[j]));
                    let w = choose|w: int|
                        0 <= w < s.drop_first().len() && s.drop_first()[w] == out[j];
                    assert(status_le(s[0], s[w + 1]));
                }
            }
        }
        vstd::seq_lib::lemma_multiset_commutative(seq![s[0]], rest);
        assert(s =~= seq![s[0]] + s.drop_first());
        vstd::seq_lib::lemma_multiset_commutative(seq![s[0]], s.drop_first());
        assert(seq![s[0]].to_multiset() =~= Multiset::<FileStatusView>::empty().insert(s[0]));
        assert(out.to_multiset() =~= s.to_multiset().insert(x));
    }
}

/// The sorted listing is sorted and holds exactly the original entries.
pub proof fn lemma_sort_statuses_ensures(s: Seq<FileStatusView>)
    ensures
        statuses_sorted(spec_sort_statuses(s)),
        spec_sort_statuses(s).to_multiset() == s.to_multiset(),
        spec_sort_statuses(s).len() == s.len(),
    decreases s.len(),
{
    broadcast use group_to_multiset_ensures;

    if s.len() > 0 {
        lemma_sort_statuses_ensures(s.drop_last());
        lemma_status_insert_sorted(s.last(), spec_sort_statuses(s.drop_last()));
        assert(s =~= s.drop_last().push(s.last()));
        assert(s.drop_last().push(s.last()).to_multiset() =~= s.drop_last().to_multiset().insert(
            s.last(),
        ));
    }
}

/// Listing order on two entries.
fn status_le_exec(a: &FileStatus, b: &FileStatus) -> (r: bool)
    ensures
        r == status_le(a@, b@),
{
    if a.staged != b.staged {
        a.staged
    } else {
        str_le(a.path.as_str(), b.path.as_str())
    }
}

/// Position at which `x` lands in the sorted run `out`.
fn find_status_pos(out: &Vec<FileStatus>, x: &FileStatus) -> (pos: usize)
    ensures
        pos <= out@.len(),
        forall|l: int|
            0 <= l < pos ==> !status_strictly_before(x@, #[trigger] status_views(out@)[l]),
        pos == out@.len() || status_strictly_before(x@, status_views(out@)[pos as int]),
{
    let mut pos: usize = 0;
    while pos < out.len()
        invariant
            pos <= out@.len(),
            forall|l: int|
                0 <= l < pos ==> !status_strictly_before(x@, #[trigger] status_views(out@)[l]),
        decreases out@.len() - pos,
    {
        let le_xy = status_le_exec(x, &out[pos]);
        let le_yx = status_le_exec(&out[pos], x);
        if le_xy && !le_yx {
            proof {
                assert(status_strictly_before(x@, status_views(out@)[pos as int]));
            }
            return pos;
        }
        proof {
            assert(!status_strictly_before(x@, status_views(out@)[pos as int]));
        }
        pos = pos + 1;
    }
    pos
}

/// Sorts a status listing: staged entries first, then by path, equals
/// keeping their original order.
pub fn sort_statuses(entries: Vec<FileStatus>) -> (r: Vec<FileStatus>)
    ensures
        status_views(r@) == spec_sort_statuses(status_views(entries@)),
{
    let ghost orig = status_views(entries@);
    let mut entries = entries;
    let total = entries.len();
    let mut out: Vec<FileStatus> = Vec::new();
    let mut i: usize = 0;
    proof {
        assert(orig.subrange(0, 0) =~= Seq::<FileStatusView>::empty());
    }
    while entries.len() > 0
        invariant
            total == orig.len(),
            i + entries@.len() == orig.len(),
            status_views(entries@) == orig.subrange(i as int, orig.len() as int),
            status_views(out@) == spec_sort_statuses(orig.subrange(0, i as int)),
        decreases entries@.len(),
    {
        let ghost pre_exec = entries@;
        let x = entries.remove(0);
        proof {
            assert(status_views(pre_exec)[0] == orig[i as int]);
            assert(x@ == orig[i as int]);
            assert forall|l: int|
                0 <= l < entries@.len() implies status_views(entries@)[l] == orig.subrange(
                i + 1,
                orig.len() as int,
            )[l] by {
                assert(entries@[l] == pre_exec[l + 1]);
                assert(status_views(pre_exec)[l + 1] == pre_exec[l + 1]@);
            }
            assert(status_views(entries@) =~= orig.subrange(i + 1, orig.len() as int));
        }
        let ghost sorted = status_views(out@);
        let pos = find_status_pos(&out, &x);
        proof {
            lemma_status_insert_at(x@, sorted, pos as int);
        }
        let ghost xv = x@;
        out.insert(pos, x);
        proof {
            assert(status_views(out@) =~= sorted.insert(pos as int, xv));
            assert(orig.subrange(0, i + 1).drop_last() =~= orig.subrange(0, i as int));
            assert(orig.subrange(0, i + 1).last() == orig[i as int]);
        }
        i = i + 1;
    }
    proof {
        assert(orig.subrange(0, orig.len() as int) =~= orig);
    }
    out
}

/// The records of a whole status scan, one entry tuple per flagged path:
/// classified, then sorted.
pub open spec fn spec_scan_records(
    entries: Seq<(String, StatusFlags, Option<String>, Option<String>)>,
) -> Seq<FileStatusView>
    decreases entries.len(),
{
    if entries.len() == 0 {
        Seq::empty()
    } else {
        spec_scan_records(entries.drop_last()) + spec_entry_records(
            entries.last().0@,
            entries.last().1,
            match entries.last().2 {
                Some(p) => Some(p@),
                None => None,
            },
            match entries.last().3 {
                Some(p) => Some(p@),
                None => None,
            },
        )
    }
}

impl FileStatus {
    /// Classifies a whole status scan and sorts the listing: for each
    /// flagged path its staged, unstaged and conflict entries, staged
    /// entries first, then by path.
    pub fn from_scan(
        entries: Vec<(String, StatusFlags, Option<String>, Option<String>)>,
    ) -> (r: Vec<FileStatus>)
        ensures
            status_views(r@) == spec_sort_statuses(spec_scan_records(entries@)),
    {
        let ghost all = entries@;
        let mut collected: Vec<FileStatus> = Vec::new();
        let mut i: usize = 0;
        proof {
            assert(all.subrange(0, 0) =~= Seq::<(
                String,
                StatusFlags,
                Option<String>,
                Option<String>,
            )>::empty());
            assert(status_views(collected@) =~= spec_scan_records(all.subrange(0, 0)));
        }
        while i < entries.len()
            invariant
                i <= entries@.len(),
                all == entries@,
                status_views(collected@) == spec_scan_records(all.subrange(0, i as int)),
            decreases entries@.len() - i,
        {
            let e = &entries[i];
            let records = entry_records(&e.0, e.1, &e.2, &e.3);
            let ghost before = status_views(collected@);
            let ghost recs = status_views(records@);
            let mut records = records;
            let rn = records.len();
            let mut j: usize = 0;
            proof {
                assert(before + recs.subrange(0, 0) =~= before);
            }
            while records.len() > 0
                invariant
                    rn == recs.len(),
                    j + records@.len() == recs.len(),
                    status_views(records@) == recs.subrange(j as int, recs.len() as int),
                    status_views(collected@) == before + recs.subrange(0, j as int),
                decreases records@.len(),
            {
                let ghost pre_exec = records@;
                let x = records.remove(0);
                proof {
                    assert(status_views(pre_exec)[0] == recs[j as int]);
                    assert(x@ == recs[j as int]);
                    assert forall|l: int|
                        0 <= l < records@.len() implies status_views(records@)[l]
                        == recs.subrange(j + 1, recs.len() as int)[l] by {
                        assert(records@[l] == pre_exec[l + 1]);
                        assert(status_views(pre_exec)[l + 1] == pre_exec[l + 1]@);
                    }
                    assert(status_views(records@) =~= recs.subrange(j + 1, recs.len() as int));
                }
                let ghost cb = status_views(collected@);
                collected.push(x);
                proof {
                    assert(status_views(collected@) =~= cb.push(recs[j as int]));
                    assert(cb.push(recs[j as int]) =~= before + recs.subrange(0, j + 1));
                }
                j = j + 1;
            }
            proof {
                assert(recs.subrange(0, recs.len() as int) =~= recs);
                assert(all.subrange(0, i + 1).drop_last() =~= all.subrange(0, i as int));
                assert(all.subrange(0, i + 1).last() == all[i as int]);
            }
            i = i + 1;
        }
        proof {
            assert(all.subrange(0, all.len() as int) =~= all);
        }
        sort_statuses(collected)
    }
}

} // verus!
