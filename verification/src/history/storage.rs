//! The history store's bookkeeping: where the file lives, when compaction
//! is due, and which entries each operation keeps. The file system calls —
//! open, lock, append, read — stay with the caller, which hands the parsed
//! entries in and out as plain values.

use vstd::prelude::*;

use crate::history::model::HistoryEntry;

verus! {

/// The file size, in bytes, beyond which a read triggers compaction.
pub const COMPACTION_THRESHOLD_BYTES: u64 = 20971520;

/// How many entries compaction keeps.
pub const MAX_ENTRIES: usize = 10000;

/// The history store: the path of the append-only JSON-lines file.
pub struct HistoryStorage {
    pub file_path: String,
}

impl HistoryStorage {
    /// A store over the project-local default file. A caller that honours
    /// an environment override builds the path itself and uses
    /// `new_with_path`.
    pub fn new() -> (r: HistoryStorage)
        ensures
            r.file_path@ == ".rupost/history.jsonl"@,
    {
        HistoryStorage { file_path: ".rupost/history.jsonl".to_owned() }
    }

    /// A store over the given file path.
    pub fn new_with_path(path: String) -> (r: HistoryStorage)
        ensures
            r.file_path@ == path@,
    {
        HistoryStorage { file_path: path }
    }

    /// The file path the store was built over.
    pub fn path(&self) -> (r: &str)
        ensures
            r@ == self.file_path@,
    {
        self.file_path.as_str()
    }

    /// Whether a file of the given size is due for compaction.
    pub fn needs_compaction(size: u64) -> (r: bool)
        ensures
            r == (size >= COMPACTION_THRESHOLD_BYTES),
    {
        size >= COMPACTION_THRESHOLD_BYTES
    }

    /// Whether a compaction pass must rewrite the given entry count.
    pub fn over_capacity(count: usize) -> (r: bool)
        ensures
            r == (count > MAX_ENTRIES),
    {
        count > MAX_ENTRIES
    }
}

/// The most recent `n` entries, oldest first: the suffix of length
/// `min(n, len)`.
pub fn tail_entries(entries: Vec<HistoryEntry>, n: usize) -> (r: Vec<HistoryEntry>)
    ensures
        r@ == entries@.skip(
            if entries@.len() >= n {
                entries@.len() - n
            } else {
                0
            },
        ),
{
    let len = entries.len();
    let skip: usize = if len >= n {
        len - n
    } else {
        0
    };
    let ghost orig = entries@;
    let mut entries = entries;
    let mut out: Vec<HistoryEntry> = Vec::new();
    let mut i: usize = 0;
    proof {
        assert(out@ =~= orig.subrange(skip as int, skip as int));
        assert(entries@ =~= orig.subrange(0, skip as int) + orig.skip(skip as int));
    }
    while i < len - skip
        invariant
            0 <= i <= len - skip,
            skip <= len == orig.len(),
            entries@ == orig.subrange(0, skip as int) + orig.skip(skip + i),
            out@ == orig.subrange(skip as int, skip + i),
        decreases len - skip - i,
    {
        let ghost pre = out@;
        let item = entries.remove(skip);
        proof {
            assert(entries@ =~= orig.subrange(0, skip as int) + orig.skip(skip + i + 1));
        }
        out.push(item);
        i = i + 1;
        proof {
            assert(out@ =~= orig.subrange(skip as int, skip + i));
        }
    }
    proof {
        assert(orig.subrange(skip as int, len as int) =~= orig.skip(skip as int));
    }
    out
}

} // verus!
