//! Parsers for the two kinds of source the analyzers read.
pub mod markdown;
pub mod rust;

pub use markdown::{MarkdownBlocks, MarkdownParser};
pub use rust::RustParser;
