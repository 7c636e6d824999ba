//! Comparison of two versions of a WeiDU translation archive (TRA file).
//!
//! The library lexes and parses the TRA text format — with per-fragment
//! error recovery — projects the parsed fragments down to numbered entries,
//! and computes which entry ids were duplicated within each file and which
//! were added or removed between the two files.

pub mod diff;
pub mod lexer;
pub mod line_position;
pub mod parsers;
pub mod token;
pub mod tra_structs;
