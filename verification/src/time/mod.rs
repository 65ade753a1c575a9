//! Durations as texts.

pub mod duration_parser;

pub use duration_parser::format_duration;
pub use duration_parser::parse_duration;
