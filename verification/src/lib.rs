pub mod access;
pub mod ascii;
pub mod document;
pub mod laws;
pub mod parser;
pub mod scan;
pub mod tape;

pub use document::{ArrayElementIter, Document, ObjectEntryIter, ObjectKeyIter, ValueKind, ValueRef};
pub use parser::{ParseError, Parser, MAX_INPUT_BYTES};
pub use tape::{Tape, TapeEntry, TapeIter, TokenKind};
