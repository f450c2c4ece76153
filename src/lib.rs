//! Line-oriented text search with a case-sensitivity resolver.
pub mod config;
pub mod mode;
pub mod search;
pub mod text;

pub use config::Config;
pub use mode::determine_case_sensitivity;
pub use search::{line_contains, search, search_case_insensitive};
