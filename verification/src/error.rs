use vstd::prelude::*;

verus! {

/// `std::io::ErrorKind`, carried by [`UpkfError::IoError`].
#[verifier::external_type_specification]
#[verifier::external_body]
pub struct ExErrorKind(std::io::ErrorKind);

/// Why an archive could not be read.
#[derive(Debug)]
pub enum UpkfError {
    /// The data does not start with the archive signature.
    NotAnUpkFileError,
    /// The data ends early, or a text field is not valid UTF-8, or a payload
    /// cannot be unpacked.
    CorruptedDataError,
    /// The archive was written in a format version this library does not read.
    VersionNotSupportedError,
    /// An input or output operation failed.
    IoError { err: std::io::ErrorKind },
    /// A payload does not match the CRC-32 recorded for it.
    Crc32CheckFailed,
    /// A payload does not match the SHA-256 recorded for it.
    Sha256CheckFailed,
}

} // verus!
