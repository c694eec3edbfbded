//! A declarative HTTP test runner library.
//!
//! The crate parses line-oriented request documents (and the same grammar
//! embedded in fenced Markdown blocks), resolves variable placeholders,
//! evaluates response assertions written in a small comparison language,
//! captures values out of responses into a session variable store, and
//! models the append-only execution history.

use vstd::prelude::*;

pub mod assertion;
pub mod generator;
pub mod history;
pub mod http;
pub mod json;
pub mod number;
pub mod parser;
pub mod runner;
pub mod text;
pub mod variable;

verus! {

/// Library-wide error type.
#[derive(Debug)]
pub enum RupostError {
    ParseError(String),
    InvalidUrl(String),
    NetworkError(String),
    JsonError(String),
    Other(String),
}

impl RupostError {
    /// A human-readable description of the error.
    pub fn message(&self) -> &String {
        match self {
            RupostError::ParseError(s) => s,
            RupostError::InvalidUrl(s) => s,
            RupostError::NetworkError(s) => s,
            RupostError::JsonError(s) => s,
            RupostError::Other(s) => s,
        }
    }
}

pub type Result<T> = core::result::Result<T, RupostError>;

} // verus!
