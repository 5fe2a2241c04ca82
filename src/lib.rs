//! A stack of newline-terminated text records kept in one flat file.
//!
//! The library holds the store's model and the decisions of each operation:
//! what bytes a push appends, how a pop scans the file backward window by
//! window to find the last record and where it truncates, and how the popped
//! bytes are decoded. The file handle and its advisory lock are driven by the
//! caller, which performs the reads and truncations that the scan asks for.

pub mod record;
pub mod scan;
pub mod error;
pub mod lock;
mod outside;

