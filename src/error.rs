//! The failures of a request, and the answer that each one gets.

use vstd::prelude::*;

verus! {

#[derive(Clone, Copy, Debug, PartialEq, Eq, Structural)]
pub enum AppError {
    SqlxError,
    PasswordHashError,
    JwtError,
    NotFound,
    Unauthorized,
    InvalidCredentials,
    InternalServerError,
}

pub open spec fn status_of(e: AppError) -> u16 {
    match e {
        AppError::SqlxError => 500,
        AppError::PasswordHashError => 500,
        AppError::JwtError => 401,
        AppError::InvalidCredentials => 401,
        AppError::InternalServerError => 500,
        AppError::Unauthorized => 401,
        AppError::NotFound => 404,
    }
}

pub open spec fn message_of(e: AppError) -> Seq<char> {
    match e {
        AppError::SqlxError => "Database Error"@,
        AppError::PasswordHashError => "Hashing Error"@,
        AppError::JwtError => "Invalid token"@,
        AppError::InvalidCredentials => "Invalid email or password"@,
        AppError::InternalServerError => "An internal error occurred"@,
        AppError::Unauthorized => "Authentication required"@,
        AppError::NotFound => "Resource not found"@,
    }
}

impl AppError {
    /// The HTTP status code of the answer.
    pub fn status(&self) -> (r: u16)
        ensures
            r == status_of(*self),
    {
        match self {
            AppError::SqlxError => 500,
            AppError::PasswordHashError => 500,
            AppError::JwtError => 401,
            AppError::InvalidCredentials => 401,
            AppError::InternalServerError => 500,
            AppError::Unauthorized => 401,
            AppError::NotFound => 404,
        }
    }

    /// The text of the answer's `error` field.
    pub fn message(&self) -> (r: String)
        ensures
            r@ == message_of(*self),
    {
        match self {
            AppError::SqlxError => String::from_str("Database Error"),
            AppError::PasswordHashError => String::from_str("Hashing Error"),
            AppError::JwtError => String::from_str("Invalid token"),
            AppError::InvalidCredentials => String::from_str("Invalid email or password"),
            AppError::InternalServerError => String::from_str("An internal error occurred"),
            AppError::Unauthorized => String::from_str("Authentication required"),
            AppError::NotFound => String::from_str("Resource not found"),
        }
    }

    /// The answer to a failed database call: a missing row is "not found".
    pub fn from_database(row_not_found: bool) -> (r: AppError)
        ensures
            r == (if row_not_found {
                AppError::NotFound
            } else {
                AppError::SqlxError
            }),
    {
        if row_not_found {
            AppError::NotFound
        } else {
            AppError::SqlxError
        }
    }
}

} // verus!
