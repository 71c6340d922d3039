//! Stash entries.

use vstd::prelude::*;

verus! {

/// One saved stash: its position in the stack, its message and the
/// identifier of the commit that holds it.
#[derive(Clone, Debug)]
pub struct StashEntry {
    pub index: usize,
    pub message: String,
    pub oid: String,
}

/// Mathematical image of a stash entry.
pub ghost struct StashEntryView {
    pub index: nat,
    pub message: Seq<char>,
    pub oid: Seq<char>,
}

impl View for StashEntry {
    type V = StashEntryView;

    open spec fn view(&self) -> StashEntryView {
        StashEntryView { index: self.index as nat, message: self.message@, oid: self.oid@ }
    }
}

} // verus!
