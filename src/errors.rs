//! Errors reported to callers.
use vstd::prelude::*;

verus! {

/// A value the operation cannot take.
#[derive(Debug, Clone, Copy, PartialEq, Eq, Structural)]
pub enum ValueError {
    /// Two vectors that must have equal lengths do not; the lengths are given.
    UnequalSizeVectors(usize, usize),
}

/// A byte or hex representation that does not decode.
#[derive(Debug, Clone, Copy, PartialEq, Eq, Structural)]
pub enum SerzDeserzError {
    /// A target-group element's bytes have the wrong length: the length given and the one expected.
    GTBytesIncorrectSize(usize, usize),
    /// A G1 element's bytes have the wrong length: the length given and the one expected.
    G1BytesIncorrectSize(usize, usize),
    /// A G2 element's bytes have the wrong length: the length given and the one expected.
    G2BytesIncorrectSize(usize, usize),
    /// A text is not the whitespace-separated excess and hexadecimal value of each
    /// base-field element of the element it should hold.
    MalformedHex,
}

} // verus!
