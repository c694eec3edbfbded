//! The persisted record of one executed request.

use vstd::prelude::*;

verus! {

/// The request side of a history record, fully resolved.
pub struct RequestSnapshot {
    pub method: String,
    pub url: String,
    pub headers: Vec<(String, String)>,
    pub body: Option<String>,
}

/// The response side of a history record; the body is deliberately not
/// persisted.
pub struct ResponseMeta {
    pub status: u16,
    pub headers: Vec<(String, String)>,
}

/// One history record: an identifier, a timestamp text, the elapsed time,
/// and the two snapshots.
pub struct HistoryEntry {
    pub id: String,
    pub timestamp: String,
    pub duration_ms: u64,
    pub request: RequestSnapshot,
    pub response: ResponseMeta,
}

} // verus!
