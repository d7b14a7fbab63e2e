//! Parser for the LUM structured-log format: one header line declaring a
//! schema of `name=Type` pairs, then entry lines of `name=integer` pairs.
//!
//! Every production is a function from a byte buffer and a cursor to either a
//! value with the cursor after it, or a [`ParseError`] carrying an offset and
//! the kind of construct that was expected. Each is proved equal to a
//! declarative grammar written as spec functions beside it.

pub mod syntax;
pub mod lexer;
pub mod line;
pub mod document;

pub use syntax::{ErrorCategory, ErrorKind, ParseError, Span, StructItem, EntryItem, LogStruct, LogEntry, LogFile, LogFileView};
pub use lexer::{identifier, typename, number};
pub use line::{struct_item, entry_item, log_struct, log_entry};
pub use document::log_file;
