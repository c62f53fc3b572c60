//! The errors that loading translations can end in.

use vstd::prelude::*;

verus! {

// The errors of `std::io`, `zip` and `serde_json` are carried, never looked into.
#[verifier::external_type_specification]
#[verifier::external_body]
pub struct ExIoError(std::io::Error);

#[verifier::external_type_specification]
#[verifier::external_body]
pub struct ExZipError(zip::result::ZipError);

#[verifier::external_type_specification]
#[verifier::external_body]
pub struct ExJsonError(serde_json::Error);

/// Why translations could not be loaded.
#[derive(Debug)]
pub enum ApiError {
    /// Something could not be read.
    IOError(std::io::Error),
    /// An archive could not be taken apart.
    ZipError(zip::result::ZipError),
    /// A translation file is not a JSON object of strings.
    SerdeJsonError(serde_json::Error),
}

/// The outcome of something that can end in an `ApiError`.
pub type ApiResult<T> = Result<T, ApiError>;

impl From<std::io::Error> for ApiError {
    fn from(error: std::io::Error) -> (wrapped: ApiError) {
        ApiError::IOError(error)
    }
}

impl vstd::std_specs::convert::FromSpecImpl<std::io::Error> for ApiError {
    open spec fn obeys_from_spec() -> bool {
        true
    }

    open spec fn from_spec(error: std::io::Error) -> ApiError {
        ApiError::IOError(error)
    }
}

impl From<zip::result::ZipError> for ApiError {
    fn from(error: zip::result::ZipError) -> (wrapped: ApiError) {
        ApiError::ZipError(error)
    }
}

impl vstd::std_specs::convert::FromSpecImpl<zip::result::ZipError> for ApiError {
    open spec fn obeys_from_spec() -> bool {
        true
    }

    open spec fn from_spec(error: zip::result::ZipError) -> ApiError {
        ApiError::ZipError(error)
    }
}

impl From<serde_json::Error> for ApiError {
    fn from(error: serde_json::Error) -> (wrapped: ApiError) {
        ApiError::SerdeJsonError(error)
    }
}

impl vstd::std_specs::convert::FromSpecImpl<serde_json::Error> for ApiError {
    open spec fn obeys_from_spec() -> bool {
        true
    }

    open spec fn from_spec(error: serde_json::Error) -> ApiError {
        ApiError::SerdeJsonError(error)
    }
}

} // verus!
