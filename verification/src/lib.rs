//! Rebuilds a key-value mapping by replaying a line-oriented log.
//!
//! Each line of the log is a record (`key=value`), a control directive
//! (`:del key`) or empty. [`LogParser::parse`] replays a sequence of lines
//! that have already been read and returns the final mapping, or the fault
//! of the first line that could not be read or understood.

pub mod cursor;
pub mod error;
pub mod grammar;
pub mod laws;
pub mod mapping;
pub mod parser;
pub mod text;

pub use cursor::Cursor;
pub use error::{Context, ParseError};
pub use mapping::Mapping;
pub use parser::{Control, LogParser};
