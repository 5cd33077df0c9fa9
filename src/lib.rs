//! Search the lines of a text for a query, optionally ignoring case.

pub mod config;
pub mod search;
pub mod text;

pub use config::{has_ignore_case, Config, ConfigError};
pub use search::{find_matches, search, search_case_insensitive, select_matching};
