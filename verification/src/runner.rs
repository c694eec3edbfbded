pub mod executor;
pub mod types;

pub use types::{TestResult, TestSummary};
