//! A small line-oriented text search: which lines of a document contain a
//! literal pattern, with or without regard to letter case, and how the
//! arguments of an invocation resolve to the settings of one search.
//!
//! The library itself reads no file and no environment and prints nothing:
//! it computes on values that its caller hands in.

pub mod config;
pub mod offsets;
pub mod program;
pub mod search;
pub mod text;

pub use crate::config::{Config, ConfigError, USAGE};
pub use crate::program::Program;
pub use crate::search::{search_lines, FileReader};
