//! The library's error type and the payload that carries one to a front end.
use vstd::prelude::*;

verus! {

/// What went wrong, by kind, with a human-readable detail.
#[derive(Debug)]
pub enum AppError {
    /// Input that the library refuses; the text says why.
    Validation(String),
    /// A storage rule was broken (such as a row that names an account that
    /// does not exist).
    Database(String),
    /// The credential store failed.
    Credential(String),
    /// A mail server or the mail format failed.
    Mail(String),
    /// Reading or writing a file failed.
    Io(String),
    /// Anything else.
    Other(String),
}

/// Results of the library's fallible operations.
pub type AppResult<T> = Result<T, AppError>;

impl AppError {
    /// The text shown for this error.
    pub open spec fn message_spec(&self) -> Seq<char> {
        match self {
            AppError::Validation(m) => m@,
            AppError::Database(m) => "database error: "@ + m@,
            AppError::Credential(m) => "credential store error: "@ + m@,
            AppError::Mail(m) => "mail transport error: "@ + m@,
            AppError::Io(m) => "io error: "@ + m@,
            AppError::Other(m) => m@,
        }
    }

    /// The text shown for this error, as its `Display` would print it.
    pub fn message(&self) -> (r: String)
        ensures
            r@ == self.message_spec(),
    {
        match self {
            AppError::Validation(m) => m.clone(),
            AppError::Database(m) => "database error: ".to_owned().concat(m.as_str()),
            AppError::Credential(m) => "credential store error: ".to_owned().concat(m.as_str()),
            AppError::Mail(m) => "mail transport error: ".to_owned().concat(m.as_str()),
            AppError::Io(m) => "io error: ".to_owned().concat(m.as_str()),
            AppError::Other(m) => m.clone(),
        }
    }
}

/// Whether `e` is a validation error with the text `msg`.
pub open spec fn is_validation(e: AppError, msg: Seq<char>) -> bool {
    e matches AppError::Validation(m) && m@ == msg
}

/// Whether `e` is a storage error with the text `msg`.
pub open spec fn is_database(e: AppError, msg: Seq<char>) -> bool {
    e matches AppError::Database(m) && m@ == msg
}

/// A validation error with the text `msg`.
pub fn validation(msg: &str) -> (e: AppError)
    ensures
        is_validation(e, msg@),
{
    AppError::Validation(msg.to_owned())
}

/// The serialisable form of an error: its message.
pub struct ErrorPayload {
    pub message: String,
}

impl ErrorPayload {
    /// The payload that reports `error`.
    pub fn from_error(error: &AppError) -> (p: ErrorPayload)
        ensures
            p.message@ == error.message_spec(),
    {
        ErrorPayload { message: error.message() }
    }
}

} // verus!
