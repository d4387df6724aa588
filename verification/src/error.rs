//! The errors that a request is answered with.

use vstd::prelude::*;

verus! {

/// The S3 error codes that the download answers with.
#[derive(Debug, Clone, Copy, PartialEq, Eq, Structural)]
pub enum S3ErrorCode {
    /// A query parameter is missing or not supported.
    InvalidArgument,
    /// The request is not authenticated.
    InvalidRequest,
    /// The server cannot serve the request.
    InternalError,
}

/// An S3 error: its code and a message for the client.
#[derive(Debug, PartialEq, Eq)]
pub struct S3Error {
    pub code: S3ErrorCode,
    pub message: String,
}

/// What an [`S3Error`] says.
pub struct S3ErrorView {
    pub code: S3ErrorCode,
    pub message: Seq<char>,
}

impl View for S3Error {
    type V = S3ErrorView;

    open spec fn view(&self) -> S3ErrorView {
        S3ErrorView { code: self.code, message: self.message@ }
    }
}

impl S3Error {
    /// An error with the given code and message.
    pub fn new(code: S3ErrorCode, message: &str) -> (error: Self)
        ensures
            error@ == (S3ErrorView { code, message: message@ }),
    {
        S3Error { code, message: message.to_owned() }
    }
}

/// An error shows its code and its whole message.
pub proof fn law_an_error_shows_its_fields(error: S3Error)
    ensures
        error@.code == error.code,
        error@.message == error.message@,
{
}

} // verus!
