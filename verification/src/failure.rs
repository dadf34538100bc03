//! Errors of the archiver: a code and a message.

use vstd::prelude::*;

verus! {

/// The class of an archiver error.
#[derive(Clone, Copy, Debug, PartialEq, Eq, Structural)]
pub enum ErrorCode {
    InvalidParameter,
    MissingConfiguration,
    Incompatible,
    PayloadTooLarge,
    RequestTimeout,
    ResourceNotFound,
    InternalError,
    NetworkError,
    ConnectionTimeout,
    ImapCommandFailed,
    ImapUnexpectedResult,
    ImapAuthenticationFailed,
}

/// An archiver error.
#[derive(Debug, PartialEq, Eq)]
pub struct BichonError {
    pub code: ErrorCode,
    pub message: String,
}

/// The view of a [`BichonError`].
#[verifier::ext_equal]
pub ghost struct Failure {
    pub code: ErrorCode,
    pub message: Seq<char>,
}

impl View for BichonError {
    type V = Failure;

    open spec fn view(&self) -> Failure {
        Failure { code: self.code, message: self.message@ }
    }
}

/// The failure with a code and a message.
pub open spec fn failure(code: ErrorCode, message: Seq<char>) -> Failure {
    Failure { code, message }
}

/// A result with its error taken by its view.
pub open spec fn judged<T>(result: Result<T, BichonError>) -> Result<T, Failure> {
    match result {
        Ok(value) => Ok(value),
        Err(e) => Err(e@),
    }
}

impl BichonError {
    /// The class of the error.
    pub fn code(&self) -> (code: ErrorCode)
        ensures
            code == self@.code,
    {
        self.code
    }
}

/// An error with a code and a message.
pub fn raise(code: ErrorCode, message: &str) -> (error: BichonError)
    ensures
        error@ == failure(code, message@),
{
    BichonError { code, message: message.to_owned() }
}

} // verus!
