//! The library's error type.

use vstd::prelude::*;

verus! {

/// Everything that can go wrong in the library's own logic.
#[derive(Debug)]
#[allow(inconsistent_fields)]
pub enum BzrError {
    /// A response violated the shape or integrity the library relies on.
    DataIntegrity(String),
    /// A JSON response could not be turned into the expected value.
    Deserialize(String),
    /// An XML-RPC response could not be turned into the expected value.
    XmlRpc(String),
    /// The retained part of a response outgrew its byte budget.
    ResponseTooLarge { operation: String, limit_bytes: u64, status: Option<u16> },
    /// Bugzilla answered with an error envelope.
    Api { code: i64, message: String },
    /// The server answered with an HTTP error status and no Bugzilla envelope.
    HttpStatus { status: u16, body: String },
    /// The caller's input cannot be sent as asked: why, and the input field
    /// and value at fault where one is named.
    InputValidation { message: String, field: Option<String>, value: Option<String> },
    /// Authentication detection or authentication itself failed.
    Auth(String),
    /// The configuration cannot be used.
    Config(String),
    /// The server has no such resource, or none this account may see.
    NotFound { resource: String, id: String },
}

/// Whether `r` is an auth error whose message is `msg`.
pub open spec fn is_auth_error<T>(r: Result<T, BzrError>, msg: Seq<char>) -> bool {
    r matches Err(BzrError::Auth(m)) && m@ == msg
}

/// Whether `r` is a data-integrity error whose message is `msg`.
pub open spec fn is_integrity_error<T>(r: Result<T, BzrError>, msg: Seq<char>) -> bool {
    r matches Err(BzrError::DataIntegrity(m)) && m@ == msg
}

/// A data-integrity error carrying `message`.
pub fn invalid(message: &str) -> (e: BzrError)
    ensures
        e matches BzrError::DataIntegrity(m) && m@ == message@,
{
    BzrError::DataIntegrity(String::from_str(message))
}

} // verus!
