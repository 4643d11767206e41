//! The errors with which reading a palette file can fail.

use vstd::prelude::*;
use vstd::string::*;

verus! {

/// Why a palette file could not be turned into a palette.
///
/// Every error is fatal to the whole invocation: the first failing file
/// aborts the run and no partial table is emitted.
#[derive(Debug, Clone, PartialEq, Eq)]
pub enum PaletteError {
    /// The file's suffix names no supported format; carries the path.
    UnsupportedFormat(String),
    /// The text is not well formed in its own format (malformed syntax).
    Decode,
    /// The text decodes, but not to a flat record whose non-`name` values
    /// are `#rrggbb` hex color strings.
    Format,
}

impl PaletteError {
    /// A short description of the error, for reporting to the user.
    pub fn describe(&self) -> (r: String)
        ensures
            match self {
                PaletteError::UnsupportedFormat(_) => r@ == "unsupported file type"@,
                PaletteError::Decode => r@ == "the file is not well formed in its format"@,
                PaletteError::Format => r@ == "the file is not a flat record of hex colors"@,
            },
    {
        match self {
            PaletteError::UnsupportedFormat(_) => String::from_str("unsupported file type"),
            PaletteError::Decode => String::from_str("the file is not well formed in its format"),
            PaletteError::Format => String::from_str("the file is not a flat record of hex colors"),
        }
    }
}

} // verus!
