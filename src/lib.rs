//! A small line-oriented text search library: argument parsing into a
//! configuration and a verified line filter.
pub mod config;
pub mod lines;
pub mod search;
pub mod text;
mod utf8_slice;

pub use config::Config;
pub use search::search;
