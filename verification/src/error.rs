//! The service's error type and the HTTP answer that each error gets.

use vstd::prelude::*;

verus! {

/// The messages a client sent for one field that failed validation.
#[derive(Clone, Debug)]
pub struct FieldErrors {
    pub field: String,
    pub messages: Vec<String>,
}

/// Every way a request can fail.
#[derive(Clone, Debug)]
pub enum AppError {
    WrongCredentials,
    TokenCreation,
    InvalidToken,
    NotFound,
    BadRequest,
    Forbidden,
    Custom(String),
    InternalServerError,
    /// Field validation failed; one entry per failing field.
    ValidationError(Vec<FieldErrors>),
    /// A storage failure, with its description for the log.
    DbErr(String),
    /// A cache failure, with its description for the log.
    RedisErr(String),
    /// A user with the address or nickname already exists.
    UserAlreadyExists,
}

/// The body of an error answer: `{"error": {"code", "message", "details"}}`.
/// `details` lists the failing fields of a validation error, and is absent
/// (`null`) otherwise.
#[derive(Clone, Debug)]
pub struct ErrorBody {
    pub code: String,
    pub message: String,
    pub details: Option<Vec<FieldErrors>>,
}

/// Status code and body of the answer to a failed request.
#[derive(Clone, Debug)]
pub struct ErrorResponse {
    pub status: u16,
    pub body: ErrorBody,
}

/// The human-readable text of an error.
pub open spec fn error_text(e: AppError) -> Seq<char> {
    match e {
        AppError::WrongCredentials => "Wrong credentials"@,
        AppError::TokenCreation => "Token creation error"@,
        AppError::InvalidToken => "Invalid token"@,
        AppError::NotFound => "Not Found"@,
        AppError::BadRequest => "Bad Request"@,
        AppError::Forbidden => "Forbidden"@,
        AppError::Custom(m) => m@,
        AppError::InternalServerError => "Internal Server Error"@,
        AppError::ValidationError(_) => "Validation error"@,
        AppError::DbErr(_) => "Database error"@,
        AppError::RedisErr(_) => "An error occurred with Redis"@,
        AppError::UserAlreadyExists => "User already exists"@,
    }
}

/// The machine-readable code of an error.
pub open spec fn error_code(e: AppError) -> Seq<char> {
    match e {
        AppError::WrongCredentials | AppError::InvalidToken => "UNAUTHORIZED"@,
        AppError::TokenCreation | AppError::InternalServerError | AppError::DbErr(_) | AppError::RedisErr(
            _,
        ) => "INTERNAL_ERROR"@,
        AppError::NotFound => "NOT_FOUND"@,
        AppError::BadRequest | AppError::Custom(_) => "BAD_REQUEST"@,
        AppError::Forbidden => "FORBIDDEN"@,
        AppError::ValidationError(_) => "VALIDATION_ERROR"@,
        AppError::UserAlreadyExists => "USER_ALREADY_EXISTS"@,
    }
}

/// The HTTP status an error is answered with.
pub open spec fn error_status(e: AppError) -> u16 {
    match e {
        AppError::WrongCredentials | AppError::InvalidToken => 401,
        AppError::TokenCreation | AppError::InternalServerError => 500,
        AppError::NotFound => 404,
        AppError::BadRequest | AppError::Custom(_) => 400,
        AppError::Forbidden => 403,
        AppError::ValidationError(_) => 422,
        AppError::DbErr(_) | AppError::RedisErr(_) => 500,
        AppError::UserAlreadyExists => 409,
    }
}

/// The message in an answer's error object; storage and cache failures are
/// not described to the client.
pub open spec fn error_answer_text(e: AppError) -> Seq<char> {
    match e {
        AppError::DbErr(_) => "A database error occurred"@,
        AppError::RedisErr(_) => "An internal service error occurred"@,
        _ => error_text(e),
    }
}

impl AppError {
    /// The human-readable text of the error.
    pub fn message(&self) -> (res: String)
        ensures
            res@ == error_text(*self),
    {
        match self {
            AppError::WrongCredentials => String::from_str("Wrong credentials"),
            AppError::TokenCreation => String::from_str("Token creation error"),
            AppError::InvalidToken => String::from_str("Invalid token"),
            AppError::NotFound => String::from_str("Not Found"),
            AppError::BadRequest => String::from_str("Bad Request"),
            AppError::Forbidden => String::from_str("Forbidden"),
            AppError::Custom(m) => m.clone(),
            AppError::InternalServerError => String::from_str("Internal Server Error"),
            AppError::ValidationError(_) => String::from_str("Validation error"),
            AppError::DbErr(_) => String::from_str("Database error"),
            AppError::RedisErr(_) => String::from_str("An error occurred with Redis"),
            AppError::UserAlreadyExists => String::from_str("User already exists"),
        }
    }

    /// The HTTP status the error is answered with.
    pub fn status(&self) -> (res: u16)
        ensures
            res == error_status(*self),
    {
        match self {
            AppError::WrongCredentials | AppError::InvalidToken => 401,
            AppError::TokenCreation | AppError::InternalServerError => 500,
            AppError::NotFound => 404,
            AppError::BadRequest | AppError::Custom(_) => 400,
            AppError::Forbidden => 403,
            AppError::ValidationError(_) => 422,
            AppError::DbErr(_) | AppError::RedisErr(_) => 500,
            AppError::UserAlreadyExists => 409,
        }
    }

    /// The machine-readable code of the error.
    pub fn code(&self) -> (res: String)
        ensures
            res@ == error_code(*self),
    {
        match self {
            AppError::WrongCredentials | AppError::InvalidToken => String::from_str("UNAUTHORIZED"),
            AppError::TokenCreation | AppError::InternalServerError | AppError::DbErr(_) | AppError::RedisErr(
                _,
            ) => String::from_str("INTERNAL_ERROR"),
            AppError::NotFound => String::from_str("NOT_FOUND"),
            AppError::BadRequest | AppError::Custom(_) => String::from_str("BAD_REQUEST"),
            AppError::Forbidden => String::from_str("FORBIDDEN"),
            AppError::ValidationError(_) => String::from_str("VALIDATION_ERROR"),
            AppError::UserAlreadyExists => String::from_str("USER_ALREADY_EXISTS"),
        }
    }

    /// The answer to a request that failed with this error: its status, and
    /// an error object with the error's code and message; a validation
    /// failure lists the messages of each field as its details.
    pub fn into_response(self) -> (res: ErrorResponse)
        ensures
            res.status == error_status(self),
            res.body.code@ == error_code(self),
            res.body.message@ == error_answer_text(self),
            match self {
                AppError::ValidationError(fields) => res.body.details == Some(fields),
                _ => res.body.details is None,
            },
    {
        let status = self.status();
        let code = self.code();
        let message = match &self {
            AppError::DbErr(_) => String::from_str("A database error occurred"),
            AppError::RedisErr(_) => String::from_str("An internal service error occurred"),
            _ => self.message(),
        };
        let details = match self {
            AppError::ValidationError(fields) => Some(fields),
            _ => None,
        };
        ErrorResponse { status, body: ErrorBody { code, message, details } }
    }
}

} // verus!
