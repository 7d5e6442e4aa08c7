use vstd::prelude::*;

verus! {

/// Why a value was refused when it was added to the call parameters.
///
/// Every failure is reported by the operation that was given the offending
/// value; assembling the parameters never fails.
#[derive(Clone, Copy, Debug, PartialEq, Eq, Structural)]
pub enum CallParamsError {
    /// The fixed length declared for a byte string is outside `1..=32`.
    InvalidFixedLength,
    /// The value is longer than the fixed length declared for it.
    ValueExceedsFixedLength,
    /// The integer width is not a multiple of 8 between 8 and 256.
    InvalidWidth,
    /// An address is not 20 bytes, or its text is not 40 hexadecimal digits.
    InvalidAddressFormat,
    /// A function selector is not 4 bytes, or its text is not 8 hexadecimal digits.
    InvalidSelectorFormat,
}

} // verus!
