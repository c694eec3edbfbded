pub mod evaluator;
pub mod extractor;
pub mod parser;
pub mod types;

pub use evaluator::evaluate_assertion;
pub use extractor::extract_value;
pub use parser::parse_assertion;
pub use types::{AssertError, AssertExpr, AssertValue, AssertionResult, CompareOp, ValuePath};
