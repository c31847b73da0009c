//! The outcome of reading a file, as the parsers receive it.

use vstd::prelude::*;

verus! {

/// What reading a document from disk gave.
pub enum FileRead {
    /// No file exists at the path.
    Missing,
    /// The file exists but could not be read; the reader's error message.
    Failed(String),
    /// The file's contents.
    Contents(String),
}

} // verus!
