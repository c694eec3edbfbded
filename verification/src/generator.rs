pub mod http;

pub use http::HttpGenerator;
