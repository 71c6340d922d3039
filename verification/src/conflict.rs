//! Merge-conflict information.
//!
//! A conflicted index entry has up to three sides — ours, theirs and the
//! common ancestor; classification reads the path from the first side that
//! is present and marks which sides were deleted.

use vstd::prelude::*;
use vstd::string::*;

verus! {

/// Conflicted file info.
#[derive(Clone, Debug)]
pub struct ConflictedFile {
    pub path: String,
    pub is_deleted_by_us: bool,
    pub is_deleted_by_them: bool,
}

/// Mathematical image of a conflicted file.
pub ghost struct ConflictedFileView {
    pub path: Seq<char>,
    pub is_deleted_by_us: bool,
    pub is_deleted_by_them: bool,
}

impl View for ConflictedFile {
    type V = ConflictedFileView;

    open spec fn view(&self) -> ConflictedFileView {
        ConflictedFileView {
            path: self.path@,
            is_deleted_by_us: self.is_deleted_by_us,
            is_deleted_by_them: self.is_deleted_by_them,
        }
    }
}

/// Merge conflict information.
#[derive(Clone, Debug)]
pub struct ConflictInfo {
    pub conflicted_files: Vec<ConflictedFile>,
    pub source_branch: Option<String>,
    pub target_branch: Option<String>,
    pub is_merging: bool,
}

/// How to resolve every side of a conflict at once.
#[derive(Clone, Copy, PartialEq, Eq, Structural, Debug)]
pub enum ConflictStrategy {
    Ours,
    Theirs,
}

/// The path a conflicted entry is recorded under: the first side that is
/// present, or a placeholder when all three are missing.
pub open spec fn spec_conflict_path(
    our: Option<Seq<char>>,
    their: Option<Seq<char>>,
    ancestor: Option<Seq<char>>,
) -> Seq<char> {
    match our {
        Some(p) => p,
        None => match their {
            Some(p) => p,
            None => match ancestor {
                Some(p) => p,
                None => "unknown"@,
            },
        },
    }
}

impl ConflictedFile {
    /// Classifies one conflicted index entry from the paths of its three
    /// sides: the recorded path is the first present side's, and a missing
    /// side means that side deleted the file.
    pub fn from_sides(
        our: Option<String>,
        their: Option<String>,
        ancestor: Option<String>,
    ) -> (r: ConflictedFile)
        ensures
            r@.path == spec_conflict_path(
                match our {
                    Some(ref p) => Some(p@),
                    None => None,
                },
                match their {
                    Some(ref p) => Some(p@),
                    None => None,
                },
                match ancestor {
                    Some(ref p) => Some(p@),
                    None => None,
                },
            ),
            r@.is_deleted_by_us == (our is None),
            r@.is_deleted_by_them == (their is None),
    {
        let is_deleted_by_us = our.is_none();
        let is_deleted_by_them = their.is_none();
        let path = match our {
            Some(p) => p,
            None => match their {
                Some(p) => p,
                None => match ancestor {
                    Some(p) => p,
                    None => String::from_str("unknown"),
                },
            },
        };
        ConflictedFile { path, is_deleted_by_us, is_deleted_by_them }
    }
}

/// Which side a resolution strategy keeps: ours keeps our side, theirs keeps
/// their side.
pub open spec fn spec_keeps_ours(s: ConflictStrategy) -> bool {
    s == ConflictStrategy::Ours
}

impl ConflictStrategy {
    /// Whether this strategy keeps our side of each conflict.
    pub fn keeps_ours(&self) -> (r: bool)
        ensures
            r == spec_keeps_ours(*self),
    {
        match self {
            ConflictStrategy::Ours => true,
            ConflictStrategy::Theirs => false,
        }
    }
}

} // verus!
