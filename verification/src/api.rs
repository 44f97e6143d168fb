//! Errors of the runtime API and the library version.

use vstd::prelude::*;

verus! {

/// The version of this library, as its package declares it.
pub fn core_version() -> (version: String)
    ensures
        version@ == "0.1.0"@,
{
    String::from_str("0.1.0")
}

#[derive(Debug, Clone, Copy, PartialEq, Eq, Structural)]
pub enum RuntimeApiErrorKind {
    InvalidRequest,
    NotFound,
    Conflict,
    Upstream,
    Internal,
}

#[derive(Debug, Clone)]
pub struct RuntimeApiError {
    pub kind: RuntimeApiErrorKind,
    pub message: String,
}

impl RuntimeApiError {
    pub fn invalid(message: &str) -> (error: RuntimeApiError)
        ensures
            error.kind == RuntimeApiErrorKind::InvalidRequest,
            error.message@ == message@,
    {
        RuntimeApiError { kind: RuntimeApiErrorKind::InvalidRequest, message: String::from_str(message) }
    }

    pub fn not_found(message: &str) -> (error: RuntimeApiError)
        ensures
            error.kind == RuntimeApiErrorKind::NotFound,
            error.message@ == message@,
    {
        RuntimeApiError { kind: RuntimeApiErrorKind::NotFound, message: String::from_str(message) }
    }

    pub fn conflict(message: &str) -> (error: RuntimeApiError)
        ensures
            error.kind == RuntimeApiErrorKind::Conflict,
            error.message@ == message@,
    {
        RuntimeApiError { kind: RuntimeApiErrorKind::Conflict, message: String::from_str(message) }
    }

    pub fn upstream(message: &str) -> (error: RuntimeApiError)
        ensures
            error.kind == RuntimeApiErrorKind::Upstream,
            error.message@ == message@,
    {
        RuntimeApiError { kind: RuntimeApiErrorKind::Upstream, message: String::from_str(message) }
    }

    pub fn internal(message: &str) -> (error: RuntimeApiError)
        ensures
            error.kind == RuntimeApiErrorKind::Internal,
            error.message@ == message@,
    {
        RuntimeApiError { kind: RuntimeApiErrorKind::Internal, message: String::from_str(message) }
    }

    /// The message, as the error displays itself.
    pub fn to_text(&self) -> (text: String)
        ensures
            text@ == self.message@,
    {
        self.message.clone()
    }
}

} // verus!
