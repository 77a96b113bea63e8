//! Chinese text variant conversion: dictionary-driven, longest-match rewriting
//! between Simplified and Traditional Chinese and their regional standards.
//!
//! A profile names an ordered list of phrase tables. Each table is read into a
//! `Dictionary` and applied as one pass: the text is scanned left to right,
//! the longest phrase standing at each position is replaced, and characters
//! that no phrase covers are kept. Each pass feeds the next.
pub mod dict;
pub mod engine;
pub mod pipeline;
pub mod profile;
pub mod segment;
pub mod table;
pub mod text;

pub use engine::{OpenCC, OpenCCError};
