//! A verified core for a line/word/character/byte counting tool.
//!
//! The library tallies four metrics over the records of a text stream and
//! renders a report for any combination of the four selector flags; the
//! thin binary around it only reads the input and prints the result.

pub mod render;
pub mod tally;
pub mod text;
