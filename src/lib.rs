//! Line-oriented substring search over text.
pub mod config;
pub mod search;
pub mod text;

pub use config::{find_matches, Config};
pub use search::{search, search_case_insens};
