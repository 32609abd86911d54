//! The error type every request handler reports to its client.
use vstd::prelude::*;

verus! {

/// An API error: which HTTP class it maps to, with a human-readable message.
#[derive(Debug)]
pub enum ApiError {
    BadRequest(String),
    NotFound(String),
    Conflict(String),
    Forbidden(String),
    Internal(String),
    Command(String),
    /// No valid credentials.
    Unauthorized,
    /// Too many failed logins from this address.
    IpBanned(String),
    /// Too many failed logins for this account.
    AccountLocked(String),
}

pub type ApiResult<T> = Result<T, ApiError>;

/// `r` is a `BadRequest` carrying exactly the message `msg`.
pub open spec fn is_bad_request<T>(r: Result<T, ApiError>, msg: Seq<char>) -> bool {
    r matches Err(ApiError::BadRequest(m)) && m@ == msg
}

/// `r` is a `BadRequest`, whatever its message.
pub open spec fn is_bad<T>(r: Result<T, ApiError>) -> bool {
    r matches Err(ApiError::BadRequest(_))
}

/// `r` is a `Conflict` carrying exactly the message `msg`.
pub open spec fn is_conflict<T>(r: Result<T, ApiError>, msg: Seq<char>) -> bool {
    r matches Err(ApiError::Conflict(m)) && m@ == msg
}

/// `r` is a `NotFound` carrying exactly the message `msg`.
pub open spec fn is_not_found<T>(r: Result<T, ApiError>, msg: Seq<char>) -> bool {
    r matches Err(ApiError::NotFound(m)) && m@ == msg
}

/// A `BadRequest` error with the given message.
pub fn bad_request<T>(msg: &str) -> (r: Result<T, ApiError>)
    ensures
        is_bad_request(r, msg@),
{
    Err(ApiError::BadRequest(msg.to_owned()))
}

/// A `BadRequest` error whose message is already built.
pub fn bad_request_owned<T>(msg: String) -> (r: Result<T, ApiError>)
    ensures
        is_bad_request(r, msg@),
{
    Err(ApiError::BadRequest(msg))
}

/// An error as contracts speak of it: its class and its message.
pub enum ErrView {
    BadRequest(Seq<char>),
    NotFound(Seq<char>),
    Conflict(Seq<char>),
    Forbidden(Seq<char>),
    Internal(Seq<char>),
    Command(Seq<char>),
    Unauthorized,
    IpBanned(Seq<char>),
    AccountLocked(Seq<char>),
}

pub open spec fn err_view(e: ApiError) -> ErrView {
    match e {
        ApiError::BadRequest(m) => ErrView::BadRequest(m@),
        ApiError::NotFound(m) => ErrView::NotFound(m@),
        ApiError::Conflict(m) => ErrView::Conflict(m@),
        ApiError::Forbidden(m) => ErrView::Forbidden(m@),
        ApiError::Internal(m) => ErrView::Internal(m@),
        ApiError::Command(m) => ErrView::Command(m@),
        ApiError::Unauthorized => ErrView::Unauthorized,
        ApiError::IpBanned(m) => ErrView::IpBanned(m@),
        ApiError::AccountLocked(m) => ErrView::AccountLocked(m@),
    }
}

} // verus!
