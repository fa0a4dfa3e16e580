//! The line-oriented format: one statement on each line.

pub mod parser;
pub mod round_trip;
pub mod writer;
