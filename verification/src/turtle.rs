//! The compact format with prefixes.

pub mod writer;
