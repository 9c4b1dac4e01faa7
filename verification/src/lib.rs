//! A minimal line-search library: parse command-line tokens into a search
//! configuration, and return the lines of a text that contain a query,
//! case-sensitively or after simple ASCII case folding.

pub mod casing;
pub mod config;
mod filtering;
pub mod lines;
pub mod matching;
pub mod search;

pub use config::Config;
pub use config::ParseError;
pub use config::parse_args;
pub use lines::split_lines;
pub use search::search;
pub use search::search_case_insensitive;
pub use search::search_with_config;
