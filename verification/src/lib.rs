//! Decoding engine for line-oriented, procfs-style pseudo-file text.
//!
//! The engine turns `key: value` blocks, blank-line-delimited repeated
//! sections, and fixed-arity whitespace-separated records into strongly
//! typed values, driven by a caller-declared schema.

use vstd::prelude::*;

pub mod text;
pub mod token;
pub mod deserialize;
pub mod document;
pub mod positional;
pub mod process;
pub mod memory;
pub mod cpu;
pub mod network;
pub mod parser;
pub mod laws;

verus! {

/// The closed set of decoding failures. Every malformed input is reported
/// as one of these values; the engine never aborts on input.
#[derive(Debug, Clone, Copy, PartialEq, Eq, Structural)]
pub enum DecodeError {
    /// An input byte sequence matches no tokenizer rule.
    GrammarMismatch,
    /// A map decode expected a separator token after a key and found
    /// another key instead.
    MissingSeparator,
    /// An integer decode found no usable digits, or the digits do not fit
    /// the requested integer width.
    ExpectedInteger,
    /// A boolean decode saw text other than the two recognized literals.
    InvalidBool,
    /// A top-level decode succeeded without consuming the whole input.
    TrailingCharacters,
    /// A positional decode received a line with a different field count
    /// than declared.
    ShapeMismatch,
    /// A decode step required a token but the stream was exhausted; in
    /// particular, a required field was still missing when the record's
    /// tokens ran out.
    Eof,
}

impl DecodeError {
    /// A short description of the failure.
    pub fn message(&self) -> (r: &'static str)
        ensures
            r@ == match self {
                DecodeError::GrammarMismatch => "Input matched no grammar rule."@,
                DecodeError::MissingSeparator => "Missing separator."@,
                DecodeError::ExpectedInteger => "Expected an integer."@,
                DecodeError::InvalidBool => "Value is not a bool."@,
                DecodeError::TrailingCharacters => "Didn't parse the entirety of the input"@,
                DecodeError::ShapeMismatch => "Wrong number of positional fields."@,
                DecodeError::Eof => "Input ended before a required token."@,
            },
    {
        match self {
            DecodeError::GrammarMismatch => "Input matched no grammar rule.",
            DecodeError::MissingSeparator => "Missing separator.",
            DecodeError::ExpectedInteger => "Expected an integer.",
            DecodeError::InvalidBool => "Value is not a bool.",
            DecodeError::TrailingCharacters => "Didn't parse the entirety of the input",
            DecodeError::ShapeMismatch => "Wrong number of positional fields.",
            DecodeError::Eof => "Input ended before a required token.",
        }
    }
}

} // verus!
