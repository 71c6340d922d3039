//! File diffs.
//!
//! A diff is a list of classified lines; classification goes by the marker
//! character a patch stream attaches to each line, and the addition and
//! deletion counts are proved to count exactly those lines.

use vstd::prelude::*;

verus! {

/// Kind of a line in a diff.
#[derive(Clone, Copy, PartialEq, Eq, Structural, Debug)]
pub enum DiffLineType {
    Context,
    Addition,
    Deletion,
    Header,
}

/// Line in a diff.
#[derive(Clone, Debug)]
pub struct DiffLine {
    pub content: String,
    pub line_type: DiffLineType,
    pub old_lineno: Option<u32>,
    pub new_lineno: Option<u32>,
}

/// Mathematical image of a diff line.
pub ghost struct DiffLineView {
    pub content: Seq<char>,
    pub line_type: DiffLineType,
    pub old_lineno: Option<u32>,
    pub new_lineno: Option<u32>,
}

impl View for DiffLine {
    type V = DiffLineView;

    open spec fn view(&self) -> DiffLineView {
        DiffLineView {
            content: self.content@,
            line_type: self.line_type,
            old_lineno: self.old_lineno,
            new_lineno: self.new_lineno,
        }
    }
}

/// The views of a sequence of diff lines.
pub open spec fn line_views(s: Seq<DiffLine>) -> Seq<DiffLineView> {
    s.map_values(|l: DiffLine| l@)
}

/// Diff for a single file.
#[derive(Clone, Debug)]
pub struct FileDiff {
    pub path: String,
    pub old_path: Option<String>,
    pub lines: Vec<DiffLine>,
    pub additions: usize,
    pub deletions: usize,
}

/// The kind a patch stream's marker character denotes.
pub open spec fn spec_classify_line(origin: char) -> DiffLineType {
    if origin == '+' {
        DiffLineType::Addition
    } else if origin == '-' {
        DiffLineType::Deletion
    } else if origin == ' ' {
        DiffLineType::Context
    } else {
        DiffLineType::Header
    }
}

/// Classifies a line by the marker character a patch stream attached to it.
pub fn classify_line(origin: char) -> (r: DiffLineType)
    ensures
        r == spec_classify_line(origin),
{
    if origin == '+' {
        DiffLineType::Addition
    } else if origin == '-' {
        DiffLineType::Deletion
    } else if origin == ' ' {
        DiffLineType::Context
    } else {
        DiffLineType::Header
    }
}

/// How many of the first `n` lines have the given kind.
pub open spec fn count_kind(lines: Seq<DiffLineView>, kind: DiffLineType, n: int) -> nat
    decreases n,
{
    if n <= 0 {
        0
    } else {
        count_kind(lines, kind, n - 1) + (if lines[n - 1].line_type == kind {
            1nat
        } else {
            0nat
        })
    }
}

impl FileDiff {
    /// Assembles a file diff from its classified lines, counting additions
    /// and deletions exactly.
    pub fn from_lines(path: String, old_path: Option<String>, lines: Vec<DiffLine>) -> (r:
        FileDiff)
        ensures
            r.path@ == path@,
            r.old_path == old_path,
            line_views(r.lines@) == line_views(lines@),
            r.additions as nat == count_kind(
                line_views(lines@),
                DiffLineType::Addition,
                lines@.len() as int,
            ),
            r.deletions as nat == count_kind(
                line_views(lines@),
                DiffLineType::Deletion,
                lines@.len() as int,
            ),
    {
        let ghost lv = line_views(lines@);
        let mut additions: usize = 0;
        let mut deletions: usize = 0;
        let mut i: usize = 0;
        while i < lines.len()
            invariant
                i <= lines@.len(),
                lv == line_views(lines@),
                additions as nat == count_kind(lv, DiffLineType::Addition, i as int),
                deletions as nat == count_kind(lv, DiffLineType::Deletion, i as int),
                additions <= i,
                deletions <= i,
            decreases lines@.len() - i,
        {
            match lines[i].line_type {
                DiffLineType::Addition => {
                    additions = additions + 1;
                },
                DiffLineType::Deletion => {
                    deletions = deletions + 1;
                },
                _ => {},
            }
            i = i + 1;
        }
        FileDiff { path, old_path, lines, additions, deletions }
    }
}

} // verus!
