//! A small line-oriented substring search library.
//!
//! Given a query and the full contents of a file, the matcher returns the
//! lines that contain the query, in their original order, optionally after
//! lowercase folding and optionally prefixed with 1-based line numbers.
//! A validated [`Config`] bundles one search request.

pub mod config;
pub mod matcher;
pub mod text;

pub use config::Config;
pub use matcher::search;
pub use matcher::search_case_insensitive;
pub use matcher::search_config;
pub use text::contains_str;
