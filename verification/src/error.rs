//! The failures that decoding and encoding can report.

use vstd::prelude::*;
use vstd::std_specs::convert::FromSpecImpl;

verus! {

/// `std::io::Error`, carried through as an opaque value: nothing is claimed
/// about what it holds.
#[verifier::external_type_specification]
#[verifier::external_body]
pub struct ExIoError(std::io::Error);

/// Why an image could not be decoded or encoded.
#[derive(Debug)]
pub enum Error {
    NoError,
    ErrorOutOfMemory,
    FileCannotRead,
    FileCannotWrite,
    NoData,
    UnsupportedColorMapType,
    UnsupportedImageType,
    UnsupportedPixelFormat,
    InvalidImageDimensions,
    ColorMapIndexFailed,
    IllegalHeader,
    IOError(std::io::Error),
}

impl From<std::io::Error> for Error {
    fn from(err: std::io::Error) -> (e: Error) {
        Error::IOError(err)
    }
}

impl FromSpecImpl<std::io::Error> for Error {
    open spec fn obeys_from_spec() -> bool {
        true
    }

    open spec fn from_spec(err: std::io::Error) -> Error {
        Error::IOError(err)
    }
}

} // verus!
