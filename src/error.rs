use vstd::prelude::*;

verus! {

/// Why a byte stream could not be decoded.
#[derive(Debug, Clone, Copy, PartialEq, Eq)]
pub enum DecodeFailure {
    /// The stream ended before the values it was asked for.
    Truncated,
    /// The value stream ran out while the presence mask still asked for a value:
    /// the two streams disagree about how many values are stored.
    LengthMismatch,
    /// An integer stream held an encoding that its decoder does not accept.
    Malformed,
}

/// Errors raised while materializing a column.
#[derive(Debug, Clone, PartialEq, Eq)]
pub enum Error {
    /// A stream that the column's type needs is missing.
    InvalidColumn { name: String },
    /// A presence or value stream could not be decoded.
    DecodeError { reason: DecodeFailure },
    /// The reconstructed timestamp is not a valid instant.
    InvalidTimestamp,
}

/// The error of a stream that ended too early.
pub open spec fn truncated() -> Error {
    Error::DecodeError { reason: DecodeFailure::Truncated }
}

/// The error of a value stream that has fewer values than the mask has present rows.
pub open spec fn length_mismatch() -> Error {
    Error::DecodeError { reason: DecodeFailure::LengthMismatch }
}

} // verus!
