//! The probe interface: a probe locates its own pseudo-file, reads it,
//! and hands the text to the decode engine.

use vstd::prelude::*;

verus! {

/// A whole probe's failure: the text did not decode, or the pseudo-file
/// could not be read at all.
#[derive(Debug, Clone, Copy, PartialEq, Eq, Structural)]
pub enum DataError {
    Parsing,
    FileNotFound,
}

/// A probe that reads and decodes one source of system information.
/// Implementors own the reading; the engine only ever sees an in-memory
/// buffer, so they live with the adapters that perform the reads.
pub trait Parser {
    /// Locate this probe's data, read it, and decode it.
    fn parse() -> Result<Self, DataError> where Self: Sized;
}

} // verus!
