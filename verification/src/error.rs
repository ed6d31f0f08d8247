//! The ways in which an operation of this crate can fail.

use vstd::prelude::*;

verus! {

/// Why a call failed. The first two are fatal to the call that reports them;
/// `OutOfBounds` and `ChecksumMismatch` describe one candidate package and
/// are survived by the search; `DecodeFailure` ends a reception.
#[derive(Clone, Copy, Debug, PartialEq, Eq, Structural)]
pub enum SignalError {
    /// The number of bits is not a multiple of eight where bytes are needed.
    Alignment,
    /// The payload has more bytes than the size field can express.
    PayloadTooLarge,
    /// A field would be read past the end of the bit sequence.
    OutOfBounds,
    /// The stored checksum differs from the one computed over the payload.
    ChecksumMismatch,
    /// No offset of the received sequence holds a valid package.
    DecodeFailure,
}

impl SignalError {
    /// The words that describe each error.
    pub open spec fn description(self) -> Seq<char> {
        match self {
            SignalError::Alignment => "bit count is not a multiple of eight"@,
            SignalError::PayloadTooLarge => "payload too large for the size field"@,
            SignalError::OutOfBounds => "field reaches past the end of the sequence"@,
            SignalError::ChecksumMismatch => "checksum mismatch"@,
            SignalError::DecodeFailure => "no valid package found"@,
        }
    }

    /// A short description for diagnostics.
    pub fn describe(&self) -> (text: &'static str)
        ensures
            text@ == self.description(),
    {
        match self {
            SignalError::Alignment => "bit count is not a multiple of eight",
            SignalError::PayloadTooLarge => "payload too large for the size field",
            SignalError::OutOfBounds => "field reaches past the end of the sequence",
            SignalError::ChecksumMismatch => "checksum mismatch",
            SignalError::DecodeFailure => "no valid package found",
        }
    }
}

} // verus!
