//! A small line-oriented text search library.
//!
//! A text is modelled as a sequence of lines; a search returns, in source
//! order, every line that contains the query, either exactly or after
//! lowercasing both the line and the query.

pub mod config;
pub mod search;
pub mod text;

pub use config::Config;
pub use config::ConfigError;
pub use search::run_search;
pub use search::search;
pub use search::search_case_insensitive;
