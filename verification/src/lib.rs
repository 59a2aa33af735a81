//! A verified line, word, and byte counter.
//!
//! The counting core scans raw bytes: every byte value at or below the space
//! character (0x20) is whitespace, a line is a 0x0A byte, and a word is a
//! maximal run of non-whitespace bytes. Counting may be done on a whole
//! buffer at once or chunk by chunk; the chunk stitcher carries the
//! word-boundary state between chunks so that the totals never depend on how
//! the input was split.
//!
//! An empty input counts as exactly zero lines, zero words, and zero bytes:
//! no trailing-newline convention is assumed, on any reading path.

pub mod config;
pub mod count;
pub mod counts;
pub mod format;
pub mod report;
pub mod stitch;
