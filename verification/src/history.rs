pub mod model;
pub mod selector;
pub mod serialization;
pub mod storage;

pub use model::{HistoryEntry, RequestSnapshot, ResponseMeta};
pub use selector::SelectionStrategy;
pub use storage::HistoryStorage;
