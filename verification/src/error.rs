//! The error every request handler answers with: an HTTP status code and a
//! message for the client.

use vstd::prelude::*;

verus! {

/// An HTTP status code and a message.
#[derive(Debug, Clone)]
pub struct AppError {
    pub status: u16,
    pub message: String,
}

/// `e` carries `status` and `message`.
pub open spec fn is_error(e: AppError, status: u16, message: Seq<char>) -> bool {
    e.status == status && e.message@ == message
}

impl AppError {
    pub fn new(status: u16, message: &str) -> (e: AppError)
        ensures
            is_error(e, status, message@),
    {
        AppError { status, message: String::from_str(message) }
    }

    /// 400 Bad Request.
    pub fn bad_request(message: &str) -> (e: AppError)
        ensures
            is_error(e, 400, message@),
    {
        AppError::new(400, message)
    }

    /// 401 Unauthorized.
    pub fn unauthorized(message: &str) -> (e: AppError)
        ensures
            is_error(e, 401, message@),
    {
        AppError::new(401, message)
    }

    /// 404 Not Found.
    pub fn not_found(message: &str) -> (e: AppError)
        ensures
            is_error(e, 404, message@),
    {
        AppError::new(404, message)
    }

    /// 409 Conflict.
    pub fn conflict(message: &str) -> (e: AppError)
        ensures
            is_error(e, 409, message@),
    {
        AppError::new(409, message)
    }

    /// 500 Internal Server Error.
    pub fn internal(message: &str) -> (e: AppError)
        ensures
            is_error(e, 500, message@),
    {
        AppError::new(500, message)
    }
}

} // verus!
