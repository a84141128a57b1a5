use vstd::prelude::*;

verus! {

#[verifier::external_type_specification]
#[verifier::external_body]
pub struct ExIoError(std::io::Error);

#[verifier::external_type_specification]
#[verifier::external_body]
pub struct ExUtf8Error(std::str::Utf8Error);

/// An error which occurs when revisioned serialization / deserialization fails.
#[derive(Debug)]
pub enum Error {
    /// An IO error occured.
    Io(std::io::Error),
    /// Tried to deserialize a boolean value with an invalid byte value.
    InvalidBoolValue(u8),
    /// Deserialization encountered integer encoding which is not suported.
    InvalidIntegerEncoding,
    /// Deserialization encountered an integer with a value which did not fit the target type..
    IntegerOverflow,
    /// Path contains invalid utf-8 characters
    InvalidPath,
    /// Invalid character encoding
    InvalidCharEncoding,
    /// Error parsing a string
    Utf8Error(std::str::Utf8Error),
    /// Failed to serialize character.
    Serialize(String),
    /// Generic deserialization error.
    Deserialize(String),
    /// Semantic conversion or validation error.
    Conversion(String),
    /// An optimised tag byte names no size class.
    InvalidOptimisedTag,
    /// An offset of an indexed payload lies beyond the payload.
    OptimisedOffsetOutOfRange { offset: u32, payload_len: usize },
    /// The offsets of an indexed payload do not strictly increase.
    OptimisedOffsetsNonMonotonic,
    /// The keys of an indexed map payload are not in ascending byte order.
    OptimisedKeyRegionNotAscending,
    /// An optimised payload is too short for what it must hold.
    OptimisedSubReaderOverrun,
}

/// The variant of an [`Error`], with the payloads that the byte format determines.
///
/// Contracts of the decoders state which kind of error a given input produces.
#[derive(Debug, Clone, Copy, PartialEq, Eq, Structural)]
pub enum ErrorKind {
    Io,
    InvalidBoolValue(u8),
    InvalidIntegerEncoding,
    IntegerOverflow,
    InvalidPath,
    InvalidCharEncoding,
    Utf8Error,
    Serialize,
    Deserialize,
    Conversion,
    InvalidOptimisedTag,
    OptimisedOffsetOutOfRange { offset: u32, payload_len: usize },
    OptimisedOffsetsNonMonotonic,
    OptimisedKeyRegionNotAscending,
    OptimisedSubReaderOverrun,
}

impl Error {
    /// The kind of this error.
    pub open spec fn kind(&self) -> ErrorKind {
        match self {
            Error::Io(_) => ErrorKind::Io,
            Error::InvalidBoolValue(b) => ErrorKind::InvalidBoolValue(*b),
            Error::InvalidIntegerEncoding => ErrorKind::InvalidIntegerEncoding,
            Error::IntegerOverflow => ErrorKind::IntegerOverflow,
            Error::InvalidPath => ErrorKind::InvalidPath,
            Error::InvalidCharEncoding => ErrorKind::InvalidCharEncoding,
            Error::Utf8Error(_) => ErrorKind::Utf8Error,
            Error::Serialize(_) => ErrorKind::Serialize,
            Error::Deserialize(_) => ErrorKind::Deserialize,
            Error::Conversion(_) => ErrorKind::Conversion,
            Error::InvalidOptimisedTag => ErrorKind::InvalidOptimisedTag,
            Error::OptimisedOffsetOutOfRange { offset, payload_len } => {
                ErrorKind::OptimisedOffsetOutOfRange { offset: *offset, payload_len: *payload_len }
            },
            Error::OptimisedOffsetsNonMonotonic => ErrorKind::OptimisedOffsetsNonMonotonic,
            Error::OptimisedKeyRegionNotAscending => ErrorKind::OptimisedKeyRegionNotAscending,
            Error::OptimisedSubReaderOverrun => ErrorKind::OptimisedSubReaderOverrun,
        }
    }
}

/// Builds the I/O error that `std::io::Read::read_exact` reports when a reader runs out
/// of bytes (`std::io::ErrorKind::UnexpectedEof` converted with `From`).
/// Nothing is stated of the value: only the variant of [`Error`] that wraps it matters here.
#[verifier::external_body]
pub(crate) fn unexpected_eof() -> std::io::Error {
    std::io::Error::from(std::io::ErrorKind::UnexpectedEof)
}

} // verus!
