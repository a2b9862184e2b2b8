//! The ways in which producing an archive can fail.

use vstd::prelude::*;

verus! {

/// Why an archive operation was abandoned.
#[derive(Clone, Copy, Debug, PartialEq, Eq, Structural)]
pub enum WriterError {
    /// An output file could not be created or opened.
    CreateError,
    /// A group, attribute or dataset of an event could not be written.
    EncodeError,
    /// The closing `max_event` metadata could not be written.
    FinalizeError,
    /// The current size of the output file could not be read.
    SizeQueryError,
}

} // verus!
