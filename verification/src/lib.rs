//! Counting lines, words, characters, bytes and the widest line of UTF-8 text,
//! with the report lines of a `wc`-style tool.

pub mod text;
pub mod options;
pub mod report;
pub mod wc;
