//! The one error type shared by all decoders.
use vstd::prelude::*;

verus! {

/// Why a buffer was rejected. Every decoder stops at the first violated
/// assumption and reports it with the field it concerns.
#[derive(Debug, Clone, Copy, PartialEq, Eq)]
pub enum DecodeError {
    /// A leading signature or version constant has the wrong value.
    MagicMismatch { field: &'static str, expected: u64, actual: u64 },
    /// A redundant offset or size field disagrees with the value computed
    /// from the other fields.
    StructuralCrossCheckFailed { field: &'static str, expected: u64, actual: u64 },
    /// A mode or record form that is not implemented.
    UnsupportedVariant { field: &'static str, actual: u64 },
    /// `needed` bytes were wanted at `offset`, but the buffer holds only
    /// `length` bytes.
    TruncatedInput { offset: u64, needed: u64, length: u64 },
    /// The bytes of a text field starting at `offset` are not UTF-8.
    TextDecodeFailed { offset: u64 },
    /// Decoding ended at `consumed`, before the end of a buffer of `length`
    /// bytes.
    TrailingDataError { consumed: u64, length: u64 },
}

/// Holds a signature or version constant against the value it must have.
pub fn expect_magic(field: &'static str, expected: u64, actual: u64) -> (r: Result<(), DecodeError>)
    ensures
        r == if actual == expected {
            Ok::<(), DecodeError>(())
        } else {
            Err(DecodeError::MagicMismatch { field, expected, actual })
        },
{
    if actual == expected {
        Ok(())
    } else {
        Err(DecodeError::MagicMismatch { field, expected, actual })
    }
}

/// Holds a stored offset or size against the value computed for it.
pub fn expect_computed(field: &'static str, expected: u64, actual: u64) -> (r: Result<
    (),
    DecodeError,
>)
    ensures
        r == if actual == expected {
            Ok::<(), DecodeError>(())
        } else {
            Err(DecodeError::StructuralCrossCheckFailed { field, expected, actual })
        },
{
    if actual == expected {
        Ok(())
    } else {
        Err(DecodeError::StructuralCrossCheckFailed { field, expected, actual })
    }
}

} // verus!
