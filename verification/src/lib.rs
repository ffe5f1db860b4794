//! Streaming reader for JSON log-export dumps.
//!
//! A dump is a JSON document whose top level is an array of log-record
//! objects. The reader locates the array inside the byte stream, delimits
//! one element at a time with a bounded lookahead buffer, and decodes each
//! element into a typed record, without ever holding the whole document in
//! memory.

pub mod cli;
pub mod entry;
pub mod json;
pub mod severity;
pub mod source;
pub mod stream;

pub use cli::Cli;
pub use entry::{DecodeProblem, FieldName, LogEntry};
pub use severity::LogSeverity;
pub use source::{ByteSource, ReadFailure, SliceSource};
pub use stream::{DelimOutcome, IterState, LogEntryIter, LogError};
