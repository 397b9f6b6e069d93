//! The errors a decoder can report.

use vstd::prelude::*;

verus! {

/// Why a byte stream failed to decode. Decoding aborts on the first error and
/// produces no partial value; encoding of a well-typed value cannot fail.
#[derive(Debug, Clone, Copy, PartialEq, Eq, Structural)]
pub enum DecodeError {
    /// The stream ended before a required byte, field, or element was read.
    UnexpectedEnd,
    /// A discriminant byte matched no declared variant of the enum being
    /// decoded; carries the offending byte.
    InvalidDiscriminant(u8),
    /// A boolean field held a byte other than 0 or 1; carries the byte.
    InvalidBoolean(u8),
    /// A variable-length integer exceeded the 32-bit domain.
    VarintOutOfRange,
    /// Bytes remained after a region that should have been fully consumed.
    TrailingData,
}

} // verus!
