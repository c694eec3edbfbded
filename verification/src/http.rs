pub mod request;
pub mod response;
pub mod types;

pub use request::{BodyKind, Request};
pub use response::Response;
pub use types::{Method, Status, Url};
