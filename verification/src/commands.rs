//! The shape of a command-line request, as plain data.
//!
//! The surrounding program parses its arguments into these values and
//! dispatches on the mode; the library itself does no argument handling.

use vstd::prelude::*;

verus! {

/// One invocation's arguments: the mode, the file to operate on, and the
/// optional chunk type and message the mode may need.
pub struct Cli {
    pub mode: Mode,
    pub file: String,
    pub chunk_type: Option<String>,
    pub message: Option<String>,
}

/// What the invocation asks for.
#[derive(Copy, Clone, PartialEq, Eq, PartialOrd, Ord)]
pub enum Mode {
    /// Append a message chunk and write the result back.
    Encode,
    /// Find a chunk by type and print its payload as text.
    Decode,
    /// Remove the first chunk of a type and write the result back.
    Remove,
    /// Render a summary of the container.
    Print,
}

} // verus!
