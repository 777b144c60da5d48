//! The error taxonomy shared by every component of the service, and its
//! mapping to transport status codes.

use vstd::prelude::*;
use vstd::string::StringExecFns;

verus! {

/// A typed error as surfaced by the core to the transport boundary.
#[derive(Debug)]
pub enum ApiError {
    NotFound(String),
    BadRequest(String),
    Unauthorized(String),
    Forbidden(String),
    InternalServerError(String),
    DatabaseError(String),
    ValidationError(String),
}

impl ApiError {
    /// The HTTP status code the transport layer assigns to this error kind.
    pub open spec fn spec_status_code(&self) -> u16 {
        match self {
            ApiError::NotFound(_) => 404,
            ApiError::BadRequest(_) => 400,
            ApiError::Unauthorized(_) => 401,
            ApiError::Forbidden(_) => 403,
            ApiError::InternalServerError(_) => 500,
            ApiError::DatabaseError(_) => 500,
            ApiError::ValidationError(_) => 400,
        }
    }

    /// The human-readable message carried inside the error.
    pub open spec fn spec_message(&self) -> Seq<char> {
        match self {
            ApiError::NotFound(m) => m@,
            ApiError::BadRequest(m) => m@,
            ApiError::Unauthorized(m) => m@,
            ApiError::Forbidden(m) => m@,
            ApiError::InternalServerError(m) => m@,
            ApiError::DatabaseError(m) => m@,
            ApiError::ValidationError(m) => m@,
        }
    }

    pub fn status_code(&self) -> (code: u16)
        ensures
            code == self.spec_status_code(),
    {
        match self {
            ApiError::NotFound(_) => 404,
            ApiError::BadRequest(_) => 400,
            ApiError::Unauthorized(_) => 401,
            ApiError::Forbidden(_) => 403,
            ApiError::InternalServerError(_) => 500,
            ApiError::DatabaseError(_) => 500,
            ApiError::ValidationError(_) => 400,
        }
    }

    /// The kind-prefixed description the boundary logs for this error.
    pub open spec fn spec_describe(&self) -> Seq<char> {
        match self {
            ApiError::NotFound(m) => "Not Found: "@ + m@,
            ApiError::BadRequest(m) => "Bad Request: "@ + m@,
            ApiError::Unauthorized(m) => "Unauthorized: "@ + m@,
            ApiError::Forbidden(m) => "Forbidden: "@ + m@,
            ApiError::InternalServerError(m) => "Internal Server Error: "@ + m@,
            ApiError::DatabaseError(m) => "Database Error: "@ + m@,
            ApiError::ValidationError(m) => "Validation Error: "@ + m@,
        }
    }

    pub fn describe(&self) -> (d: String)
        ensures
            d@ == self.spec_describe(),
    {
        let mut d = match self {
            ApiError::NotFound(_) => String::from_str("Not Found: "),
            ApiError::BadRequest(_) => String::from_str("Bad Request: "),
            ApiError::Unauthorized(_) => String::from_str("Unauthorized: "),
            ApiError::Forbidden(_) => String::from_str("Forbidden: "),
            ApiError::InternalServerError(_) => String::from_str("Internal Server Error: "),
            ApiError::DatabaseError(_) => String::from_str("Database Error: "),
            ApiError::ValidationError(_) => String::from_str("Validation Error: "),
        };
        d.append(self.message().as_str());
        d
    }

    pub fn message(&self) -> (m: &String)
        ensures
            m@ == self.spec_message(),
    {
        match self {
            ApiError::NotFound(m) => m,
            ApiError::BadRequest(m) => m,
            ApiError::Unauthorized(m) => m,
            ApiError::Forbidden(m) => m,
            ApiError::InternalServerError(m) => m,
            ApiError::DatabaseError(m) => m,
            ApiError::ValidationError(m) => m,
        }
    }
}

} // verus!
