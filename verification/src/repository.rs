//! Repository-level information: the checked-out branch and its remote.

use vstd::prelude::*;

verus! {

/// Repository information (HEAD, branch, remote).
#[derive(Clone, Debug)]
pub struct RepositoryInfo {
    /// Current HEAD reference name.
    pub head_ref: Option<String>,
    /// Current branch name (None if detached).
    pub current_branch: Option<String>,
    /// Is HEAD detached?
    pub is_detached: bool,
    /// Commits ahead of upstream.
    pub ahead: usize,
    /// Commits behind upstream.
    pub behind: usize,
    /// Remote name (usually "origin").
    pub remote_name: Option<String>,
    /// Remote URL.
    pub remote_url: Option<String>,
}

} // verus!
