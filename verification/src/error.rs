//! The error type shared by the library's fallible operations.

use vstd::prelude::*;

verus! {

/// What went wrong, with the message shown to the user.
#[derive(Debug)]
pub enum AppError {
    /// Settings or stored configuration are missing or invalid.
    Config(String),
    /// A request made by the user or the model was rejected.
    InvalidInput(String),
    /// The model provider misbehaved or a chat turn could not complete.
    Model(String),
    /// Reading or writing local files failed.
    Io(String),
    /// A JSON document could not be read or written.
    Json(String),
    /// The database reported an error.
    Database(String),
    /// An HTTP request failed.
    Http(String),
    /// The operation was cancelled by the user.
    Cancelled,
}

impl AppError {
    /// The message carried by the error (empty for a cancellation).
    pub open spec fn message_view(self) -> Seq<char> {
        match self {
            AppError::Config(m) => m@,
            AppError::InvalidInput(m) => m@,
            AppError::Model(m) => m@,
            AppError::Io(m) => m@,
            AppError::Json(m) => m@,
            AppError::Database(m) => m@,
            AppError::Http(m) => m@,
            AppError::Cancelled => Seq::empty(),
        }
    }
}

} // verus!
