pub mod capture;
pub mod config;
pub mod resolver;
pub mod types;

pub use capture::{CaptureSource, VariableCapture};
pub use resolver::VariableResolver;
pub use types::{Environment, VariableConfig, VariableContext};
