pub mod converter;
pub mod http_file;
pub mod markdown_file;
pub mod metadata;
pub mod types;



pub use markdown_file::MarkdownFileParser;
pub use types::{Metadata, ParseError, ParseResult, ParsedFile, ParsedRequest, RequestMetadata};
pub use http_file::{parse_content, HttpFileParser};
