//! Failures of the store and of the request handlers.

use vstd::prelude::*;
use vstd::string::StringExecFns;

verus! {

/// Why the identity store refused a write.
#[derive(Clone, Copy, Debug, PartialEq, Eq, Structural)]
pub enum StoreError {
    /// Another row of the same kind already carries the name.
    NameTaken,
    /// No row has the given id.
    RowMissing,
    /// A ping names a machine or a target that does not exist.
    ParentMissing,
    /// The id counter of the table has reached its end.
    IdsExhausted,
}

/// Why a credential was turned down.
#[derive(Clone, Copy, Debug, PartialEq, Eq, Structural)]
pub enum AuthReason {
    /// The admin secret was missing or wrong.
    LoginRequired,
    /// A per-machine token that is not of the form `<id>:<secret>`.
    InvalidTokenFormat,
    /// The token was missing, names no machine, or carries the wrong secret.
    TokenRequired,
}

/// What a request handler reports when it does not succeed.
#[derive(Clone, Copy, Debug, PartialEq, Eq, Structural)]
pub enum ApiError {
    /// The credential is missing, malformed or wrong.
    Unauthorized(AuthReason),
    /// The machine or target named by id does not exist.
    NotFound,
    /// A machine or target of that name already exists.
    Conflict,
    /// The input lies outside its declared bounds.
    ValidationFailed,
    /// The store failed in a way the caller cannot mend.
    InternalFailure,
}

impl ApiError {
    /// The numeric status that goes with this failure.
    pub open spec fn status_of(self) -> u16 {
        match self {
            ApiError::Unauthorized(_) => 401,
            ApiError::NotFound => 404,
            ApiError::Conflict => 409,
            ApiError::ValidationFailed => 400,
            ApiError::InternalFailure => 500,
        }
    }

    /// The short text that goes with this failure.
    pub open spec fn message_of(self) -> Seq<char> {
        match self {
            ApiError::Unauthorized(AuthReason::LoginRequired) => "Login required"@,
            ApiError::Unauthorized(AuthReason::InvalidTokenFormat) => "Invalid API token format"@,
            ApiError::Unauthorized(AuthReason::TokenRequired) => "Api token required"@,
            ApiError::NotFound => "not found"@,
            ApiError::Conflict => "already exists"@,
            ApiError::ValidationFailed => "validation failed"@,
            ApiError::InternalFailure => "failed"@,
        }
    }

    /// The numeric status of this failure, as an HTTP status code.
    pub fn status(&self) -> (code: u16)
        ensures
            code == self.status_of(),
    {
        match self {
            ApiError::Unauthorized(_) => 401,
            ApiError::NotFound => 404,
            ApiError::Conflict => 409,
            ApiError::ValidationFailed => 400,
            ApiError::InternalFailure => 500,
        }
    }

    /// A short human-readable message; it never holds a credential or any
    /// detail of the store.
    pub fn message(&self) -> (text: String)
        ensures
            text@ == self.message_of(),
    {
        match self {
            ApiError::Unauthorized(AuthReason::LoginRequired) => String::from_str("Login required"),
            ApiError::Unauthorized(AuthReason::InvalidTokenFormat) => String::from_str(
                "Invalid API token format",
            ),
            ApiError::Unauthorized(AuthReason::TokenRequired) => String::from_str(
                "Api token required",
            ),
            ApiError::NotFound => String::from_str("not found"),
            ApiError::Conflict => String::from_str("already exists"),
            ApiError::ValidationFailed => String::from_str("validation failed"),
            ApiError::InternalFailure => String::from_str("failed"),
        }
    }
}

} // verus!
