//! Error types.

use vstd::prelude::*;

verus! {

/// An error that can occur when converting the value of a property.
#[derive(Debug, Clone, Copy, PartialEq, Eq)]
#[non_exhaustive]
pub enum PropertyError {
    /// The property's value has an invalid length for the requested conversion.
    InvalidLength,
    /// The property's value is not a valid string.
    InvalidString,
}

/// An error that can occur when accessing a standard node or property.
#[derive(Copy, Clone, Debug, Eq, PartialEq)]
pub enum StandardError {
    /// There was an error when converting the property value.
    PropertyConversion(PropertyError),
    /// The `status` property of a node had an invalid value.
    InvalidStatus,
    /// The required `/cpus` node wasn't found.
    CpusMissing,
    /// A `/cpus/cpu` node didn't have the required `reg` property.
    CpuMissingReg,
    /// The required `/memory` node wasn't found.
    MemoryMissing,
    /// The size of a prop-encoded-array property wasn't a multiple of the
    /// expected element size.
    PropEncodedArraySizeMismatch {
        /// The size in bytes of the prop-encoded-array property.
        size: usize,
        /// The number of 4 byte cells expected in each element of the array.
        chunk: usize,
    },
    /// Tried to convert part of a prop-encoded-array property to a type which
    /// was too small.
    TooManyCells {
        /// The number of (32-bit) cells in the field.
        cells: usize,
    },
}

impl From<PropertyError> for StandardError {
    fn from(e: PropertyError) -> (r: StandardError) {
        StandardError::PropertyConversion(e)
    }
}

impl vstd::std_specs::convert::FromSpecImpl<PropertyError> for StandardError {
    open spec fn obeys_from_spec() -> bool {
        true
    }

    open spec fn from_spec(e: PropertyError) -> StandardError {
        StandardError::PropertyConversion(e)
    }
}

/// The kind of an error that can occur when parsing a device tree.
#[derive(Clone, Copy, Debug, Eq, PartialEq)]
#[non_exhaustive]
pub enum FdtErrorKind {
    /// The magic number of the device tree is invalid.
    InvalidMagic,
    /// The Device Tree version is not supported by this library.
    UnsupportedVersion(u32),
    /// The length of the device tree is invalid.
    InvalidLength,
    /// The header failed validation.
    InvalidHeader(&'static str),
    /// An invalid token was encountered.
    BadToken(u32),
    /// A read from data at invalid offset was attempted.
    InvalidOffset,
    /// An invalid string was encountered.
    InvalidString,
    /// Memory reservation block has not been terminated with a null entry.
    MemReserveNotTerminated,
    /// Memory reservation block has an entry that is unaligned or has invalid
    /// size.
    MemReserveInvalid,
}

/// An error that can occur when parsing a device tree, with the byte offset
/// in the blob at which the problem was detected.
#[derive(Clone, Copy, Debug, Eq, PartialEq)]
#[non_exhaustive]
pub struct FdtParseError {
    /// The byte offset at which the problem was detected.
    pub offset: usize,
    /// The type of the error that has occurred.
    pub kind: FdtErrorKind,
}

impl FdtParseError {
    /// Creates an error of the given kind, detected at the given offset.
    pub fn new(kind: FdtErrorKind, offset: usize) -> (r: FdtParseError)
        ensures
            r == (FdtParseError { offset, kind }),
    {
        FdtParseError { offset, kind }
    }

    /// Returns the byte offset at which the problem was detected.
    pub fn offset(&self) -> (r: usize)
        ensures
            r == self.offset,
    {
        self.offset
    }
}

/// The error of kind `kind` at the mathematical offset `offset`.
pub open spec fn parse_error(kind: FdtErrorKind, offset: int) -> FdtParseError {
    FdtParseError { offset: offset as usize, kind }
}

} // verus!
