//! Substring line search over a body of text.
//!
//! The text is split into lines at newline characters, and the lines that
//! hold the query as a contiguous run of characters are returned in the order
//! in which they stand in the text, either comparing characters exactly or
//! comparing the lowercase forms of query and line.

pub mod chars;
pub mod config;
pub mod encoding;
pub mod folding;
pub mod laws;
pub mod lines;
pub mod matching;
pub mod search;
pub mod text;

pub use config::{run, Config, GrepError};
pub use search::{search, search_case_insensitive, search_with};
