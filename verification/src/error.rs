//! Why a share code is refused.

use vstd::prelude::*;

verus! {

/// The check of a code's form that failed. The checks are made in the order
/// of the variants, and the first that fails is reported.
#[derive(Clone, Copy, Debug, PartialEq, Eq, Structural)]
pub enum StructuralFault {
    /// The code does not begin with `CSGO-`.
    Prefix,
    /// The code does not have five dashes, that is, six segments.
    SegmentCount,
    /// The segments after the first do not hold 25 characters together.
    PayloadLength,
}

/// Why a share code could not be decoded.
#[derive(Clone, Copy, Debug, PartialEq, Eq, Structural)]
pub enum DecodeError {
    /// The code does not have the form of a share code.
    MalformedCode(StructuralFault),
    /// A character of the payload is no symbol of the alphabet. Where there
    /// are several, the last of them is reported. `position` counts the
    /// payload's characters from 0.
    InvalidDigit { character: char, position: usize },
    /// The digits write a number that is not a payload of exactly 18 bytes.
    TruncatedPayload,
}

} // verus!
