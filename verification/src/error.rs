//! What a conversion or a text codec reports when it fails.

use vstd::prelude::*;

verus! {

/// The ways in which an operation on a timestamp fails.
#[derive(Clone, Copy, Debug, PartialEq, Eq, Structural)]
pub enum ErrorKind {
    /// The instant lies outside the years that the calendar covers.
    ConversionOverflow,
    /// The date-time has no RFC 3339 text.
    Format,
    /// The text is not an RFC 3339 date-time.
    Parse,
}

/// A failure, with the cause in the words of the calendar code.
#[derive(Debug)]
pub struct TimestampError {
    pub kind: ErrorKind,
    pub message: String,
}

/// A failure as the contracts speak of it: the kind, and the words as a
/// sequence of characters.
pub struct Failure {
    pub kind: ErrorKind,
    pub message: Seq<char>,
}

impl View for TimestampError {
    type V = Failure;

    open spec fn view(&self) -> Failure {
        Failure { kind: self.kind, message: self.message@ }
    }
}

} // verus!
