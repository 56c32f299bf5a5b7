//! The commands that a caller can ask for, as plain data.

use vstd::prelude::*;

verus! {

/// What was asked for on the command line.
#[derive(Debug)]
pub struct Cli {
    pub command: Commands,
}

/// One command with its arguments. Paths and type codes are kept as the
/// caller gave them; nothing is checked here.
#[derive(Debug)]
pub enum Commands {
    /// Hide `message` in the file at `path`, in a chunk of type
    /// `chunk_type`, and write the result to `output_file`.
    Encode { path: String, chunk_type: String, message: String, output_file: String },
    /// Show the message in the first chunk of type `chunk_type`.
    Decode { path: String, chunk_type: String },
    /// Take the first chunk of type `chunk_type` out of the file.
    Remove { path: String, chunk_type: String },
    /// Show every chunk of the file.
    Print { path: String },
}

} // verus!
