//! Line-oriented output decoration: per-line prefix and suffix, fixed-width
//! wrapping and padding, and separators expanded to a width with a fill
//! character taken from their own tail.

pub mod cli;
pub mod config;
pub mod expand;
pub mod render;
mod text;

pub use config::FormatterConfig;
pub use expand::get_extended;
pub use render::get_lines;
