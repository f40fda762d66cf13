//! Exact byte-string search with the Boyer-Moore bad-character rule.
//!
//! The crate is laid out from the leaves up:
//!
//! * [`bad_char`]: the last-occurrence table of a pattern and the shift it yields;
//! * [`occurrence`]: what it means for a pattern to occur in a text, and where it does;
//! * [`shift_loop`]: the shift loop as a mathematical function, and why it misses nothing;
//! * [`matcher`]: the shift-driven scan of one text for one pattern;
//! * [`header`]: a pre-filter that tells Windows executables from other buffers;
//! * [`keywords`]: the keyword list, one pattern per line, each with its table;
//! * [`driver`]: what is done with one file: pre-filter, then every pattern in turn.
//!
//! Every function works on bytes already in memory; reading files and printing
//! results is left to the caller.

pub mod bad_char;
pub mod driver;
pub mod header;
pub mod keywords;
pub mod matcher;
pub mod occurrence;
pub mod shift_loop;
