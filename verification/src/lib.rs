//! A small line-oriented text search library.
//!
//! Given a document held in memory as one text blob, the matcher splits it
//! into lines and keeps those that contain a query string, either exactly or
//! after lower-casing both operands. Configuration assembly turns raw
//! command-line arguments and a case flag into a `Config` value.

pub mod config;
pub mod lines;
pub mod matcher;
pub mod text;

pub use config::ArgumentError;
pub use config::Config;
pub use lines::split_lines;
pub use matcher::matched_lines;
pub use matcher::search;
pub use matcher::search_case_insensitive;
pub use text::contains_str;
