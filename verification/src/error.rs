//! Errors reported by the host-link framing layer.

use vstd::prelude::*;

verus! {

/// Signals an error that occurred while processing host-link data.
#[derive(Clone, Copy, Debug, PartialEq, Eq, Structural)]
pub enum Error {
    /// Buffer does not contain enough bytes
    NotEnoughBytes,
    /// Last end marker not found
    EndNotFound,
    /// An escape sequence is invalid
    InvalidEscapeSequence,
    /// The length check failed; carries the number of input bytes consumed
    InvalidLength(usize),
}

} // verus!
