//! The error taxonomy shared by the decoder and the parser.

use vstd::prelude::*;

verus! {

/// An error produced while decoding or parsing an ngLog input.
///
/// Every failure of this crate is one of these two kinds; the contract of
/// each fallible function says exactly which kind comes on which input.
#[derive(Clone, Copy, Debug, PartialEq, Eq, Structural)]
pub enum NgError {
    /// The bytes presented for interpretation as text are not valid UTF-8.
    EncodingError,
    /// Structurally invalid log content: an odd-length world-variant byte
    /// stream, or an event line with fewer than two tab-separated fields.
    MalformedInput,
}

impl NgError {
    /// A short human-readable description of the error.
    pub fn message(&self) -> (m: &'static str)
        ensures
            *self == NgError::EncodingError ==> m@ == "invalid UTF-8 data"@,
            *self == NgError::MalformedInput ==> m@ == "malformed log data"@,
    {
        match self {
            NgError::EncodingError => "invalid UTF-8 data",
            NgError::MalformedInput => "malformed log data",
        }
    }
}

} // verus!
