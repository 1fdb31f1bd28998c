//! The error kinds surfaced to API callers, each mapped to an HTTP status.

use vstd::prelude::*;

verus! {

/// An API-level error with its user-visible message.
#[derive(Debug)]
pub enum ApiError {
    BadRequest(String),
    Unauthorized(String),
    NotFound(String),
    Internal(String),
    Database(String),
}

impl ApiError {
    /// The HTTP status code this error maps to.
    pub fn status_code(&self) -> (r: u16)
        ensures
            r == match self {
                ApiError::BadRequest(_) => 400u16,
                ApiError::Unauthorized(_) => 401u16,
                ApiError::NotFound(_) => 404u16,
                ApiError::Internal(_) => 500u16,
                ApiError::Database(_) => 500u16,
            },
    {
        match self {
            ApiError::BadRequest(_) => 400,
            ApiError::Unauthorized(_) => 401,
            ApiError::NotFound(_) => 404,
            ApiError::Internal(_) => 500,
            ApiError::Database(_) => 500,
        }
    }

    /// The user-visible message. Database errors never expose the engine's
    /// own text.
    pub fn message(&self) -> (r: String)
        ensures
            match self {
                ApiError::BadRequest(m) => r@ == m@,
                ApiError::Unauthorized(m) => r@ == m@,
                ApiError::NotFound(m) => r@ == m@,
                ApiError::Internal(m) => r@ == m@,
                ApiError::Database(_) => r@ == "Internal server error"@,
            },
    {
        match self {
            ApiError::BadRequest(m) => m.clone(),
            ApiError::Unauthorized(m) => m.clone(),
            ApiError::NotFound(m) => m.clone(),
            ApiError::Internal(m) => m.clone(),
            ApiError::Database(_) => String::from_str("Internal server error"),
        }
    }
}

} // verus!
