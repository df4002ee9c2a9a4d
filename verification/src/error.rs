//! The error type shared by every service of the crate.

use vstd::prelude::*;

verus! {

/// What a service reports when it cannot do what was asked.
#[derive(Debug, PartialEq, Eq)]
pub enum HalError {
    /// An argument lies outside the range that the service accepts.
    InvalidParameter(String),
    /// The cryptographic random source failed.
    CryptographicError(String),
    /// The platform does not offer the requested facility.
    NotSupported(String),
    /// Not enough of a resource is left to grant a request.
    ResourceError(String),
    /// No record exists under the given identifier.
    NotFound(String),
    /// The trusted execution environment could not provide what was asked.
    TeeInitializationFailed(String),
}

/// The result type of every fallible service.
pub type HalResult<T> = Result<T, HalError>;

} // verus!
