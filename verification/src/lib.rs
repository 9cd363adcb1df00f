//! Macro payload format shared by the atbswp recorder and the standalone
//! player, its text script form, the stored-zip container that turns the
//! portable player into a standalone macro, and the recorders' event logic.

pub mod bytes;
pub mod chars;
pub mod cli;
pub mod num;
pub mod format;
pub mod zip;
pub mod exe;
pub mod keys;
pub mod key_order;
pub mod text;
pub mod record;
pub mod roundtrip;
pub mod settings;

use vstd::prelude::*;

verus! {

/// Errors produced while parsing or writing macros.
#[derive(Debug)]
pub enum Error {
    /// The data is not a valid payload/executable/text macro.
    Invalid(String),
    /// Unsupported format version.
    Version(u16),
    /// Text script syntax error with 1-based line number.
    Syntax { line: usize, msg: String },
}

} // verus!

pub use format::{Event, EventType, Header, Macro};
