//! Closed error taxonomy.  Authentication failures are client-caused and map
//! to the unauthorized class; service failures are either a not-found on a
//! missing target row or an opaque internal category that never leaks storage
//! detail.  Each kind carries a stable machine code, a human message and an
//! HTTP status, all pinned down here.

use vstd::prelude::*;

verus! {

/// Why a request failed authentication.  The guard's ordered checks
/// produce exactly one of these; `InvalidToken` deliberately collapses
/// "token not found" and "token expired" into one externally-visible kind.
#[derive(Clone, Copy, PartialEq, Eq, Structural, Debug)]
pub enum AuthError {
    EmptyAuth,
    Malformed,
    InvalidType,
    MissingBearerToken,
    InternalError,
    InvalidToken,
}

impl AuthError {
    /// Stable machine-readable code; distinct for every kind except that
    /// internal failures share the generic internal code.
    pub open spec fn spec_code(self) -> Seq<char> {
        match self {
            AuthError::EmptyAuth => "EMPTY_AUTH"@,
            AuthError::Malformed => "MALFORMED_AUTH"@,
            AuthError::InvalidType => "INVALID_AUTH_TYPE"@,
            AuthError::MissingBearerToken => "MISSING_BEARER_TOKEN"@,
            AuthError::InternalError => "INTERNAL_SERVER_ERROR"@,
            AuthError::InvalidToken => "INVALID_TOKEN"@,
        }
    }

    /// Human-readable message for the response body.
    pub open spec fn spec_message(self) -> Seq<char> {
        match self {
            AuthError::EmptyAuth => "missing Authorization header"@,
            AuthError::Malformed => "malformed Authorization header"@,
            AuthError::InvalidType => "invalid Authorization type"@,
            AuthError::MissingBearerToken => "missing Bearer token"@,
            AuthError::InternalError => "internal error"@,
            AuthError::InvalidToken => "invalid or expired Bearer token"@,
        }
    }

    /// HTTP status: unauthorized for every client-caused kind, internal
    /// server error when the token store itself was unreachable.
    pub open spec fn spec_status(self) -> int {
        match self {
            AuthError::InternalError => 500,
            _ => 401,
        }
    }

    pub fn code(&self) -> (r: String)
        ensures
            r@ == self.spec_code(),
    {
        match self {
            AuthError::EmptyAuth => "EMPTY_AUTH".to_owned(),
            AuthError::Malformed => "MALFORMED_AUTH".to_owned(),
            AuthError::InvalidType => "INVALID_AUTH_TYPE".to_owned(),
            AuthError::MissingBearerToken => "MISSING_BEARER_TOKEN".to_owned(),
            AuthError::InternalError => "INTERNAL_SERVER_ERROR".to_owned(),
            AuthError::InvalidToken => "INVALID_TOKEN".to_owned(),
        }
    }

    pub fn message(&self) -> (r: String)
        ensures
            r@ == self.spec_message(),
    {
        match self {
            AuthError::EmptyAuth => "missing Authorization header".to_owned(),
            AuthError::Malformed => "malformed Authorization header".to_owned(),
            AuthError::InvalidType => "invalid Authorization type".to_owned(),
            AuthError::MissingBearerToken => "missing Bearer token".to_owned(),
            AuthError::InternalError => "internal error".to_owned(),
            AuthError::InvalidToken => "invalid or expired Bearer token".to_owned(),
        }
    }

    pub fn status_code(&self) -> (r: u16)
        ensures
            r == self.spec_status(),
    {
        match self {
            AuthError::InternalError => 500,
            _ => 401,
        }
    }
}

/// Why a service operation failed.  Storage failures are wrapped into one
/// opaque category; a missing target row on update is surfaced as not-found;
/// a status value outside the closed set is an invariant violation.
#[derive(Clone, Copy, PartialEq, Eq, Structural, Debug)]
pub enum ServiceError {
    StorageError,
    NotFound,
    InvariantViolation,
}

impl ServiceError {
    /// Stable machine-readable code.  Internal kinds share the generic
    /// internal code so that no storage detail reaches the caller.
    pub open spec fn spec_code(self) -> Seq<char> {
        match self {
            ServiceError::StorageError => "INTERNAL_SERVER_ERROR"@,
            ServiceError::NotFound => "NOT_FOUND"@,
            ServiceError::InvariantViolation => "INTERNAL_SERVER_ERROR"@,
        }
    }

    /// Human-readable message; deliberately generic for internal kinds.
    pub open spec fn spec_message(self) -> Seq<char> {
        match self {
            ServiceError::StorageError => "Something went wrong"@,
            ServiceError::NotFound => "not found"@,
            ServiceError::InvariantViolation => "Something went wrong"@,
        }
    }

    pub open spec fn spec_status(self) -> int {
        match self {
            ServiceError::StorageError => 500,
            ServiceError::NotFound => 404,
            ServiceError::InvariantViolation => 500,
        }
    }

    pub fn code(&self) -> (r: String)
        ensures
            r@ == self.spec_code(),
    {
        match self {
            ServiceError::StorageError => "INTERNAL_SERVER_ERROR".to_owned(),
            ServiceError::NotFound => "NOT_FOUND".to_owned(),
            ServiceError::InvariantViolation => "INTERNAL_SERVER_ERROR".to_owned(),
        }
    }

    pub fn message(&self) -> (r: String)
        ensures
            r@ == self.spec_message(),
    {
        match self {
            ServiceError::StorageError => "Something went wrong".to_owned(),
            ServiceError::NotFound => "not found".to_owned(),
            ServiceError::InvariantViolation => "Something went wrong".to_owned(),
        }
    }

    pub fn status_code(&self) -> (r: u16)
        ensures
            r == self.spec_status(),
    {
        match self {
            ServiceError::StorageError => 500,
            ServiceError::NotFound => 404,
            ServiceError::InvariantViolation => 500,
        }
    }
}

} // verus!
