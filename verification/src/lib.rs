//! Compaction of verbose command-line tool output into short summaries.
//!
//! Every routine works on text that has already been captured; running the
//! tools and printing the summaries is left to the caller.

pub mod classify;
pub mod diff;
pub mod init;
pub mod jj;
pub mod number;
pub mod savings;
pub mod text;
