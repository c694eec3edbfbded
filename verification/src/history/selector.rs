//! Choosing history entries for generation.

use vstd::prelude::*;

use crate::history::model::HistoryEntry;
use crate::history::storage::tail_entries;

verus! {

/// How entries are chosen: interactively by the user, or the most recent
/// `n`.
pub enum SelectionStrategy {
    Interactive,
    Last(usize),
}

/// The entries the `Last(n)` strategy selects: the suffix of length
/// `min(n, len)`, oldest first. Interactive selection is the caller's.
pub fn select_last(entries: Vec<HistoryEntry>, n: usize) -> (r: Vec<HistoryEntry>)
    ensures
        r@ == entries@.skip(
            if entries@.len() >= n {
                entries@.len() - n
            } else {
                0
            },
        ),
{
    tail_entries(entries, n)
}

} // verus!
