//! How request handling fails, and how each failure is reported.

use vstd::prelude::*;

verus! {

/// Why a request was not served: the distinction tells clients whether the
/// fault was theirs or the control-plane's.
#[derive(Debug)]
pub enum ApiError {
    /// The requested alias is not loaded.
    NotFound(String),
    /// The request named no model, or its body could not be read.
    BadRequest(String),
    /// The control-plane itself failed.
    Internal(String),
}

impl ApiError {
    /// The response status for this failure.
    pub fn status_code(&self) -> (r: u16)
        ensures
            match self {
                ApiError::NotFound(_) => r == 404,
                ApiError::BadRequest(_) => r == 400,
                ApiError::Internal(_) => r == 500,
            },
    {
        match self {
            ApiError::NotFound(_) => 404,
            ApiError::BadRequest(_) => 400,
            ApiError::Internal(_) => 500,
        }
    }

    /// The diagnostic line sent with the status.
    pub fn message(&self) -> (r: String)
        ensures
            match self {
                ApiError::NotFound(alias) => r@ == "Model alias "@ + alias@ + " not found"@,
                ApiError::BadRequest(text) => r@ == "Request rejected: "@ + text@,
                ApiError::Internal(text) => r@ == text@,
            },
    {
        let mut s = String::new();
        match self {
            ApiError::NotFound(alias) => {
                s.append("Model alias ");
                s.append(alias.as_str());
                s.append(" not found");
            }
            ApiError::BadRequest(text) => {
                s.append("Request rejected: ");
                s.append(text.as_str());
            }
            ApiError::Internal(text) => {
                s.append(text.as_str());
            }
        }
        s
    }
}

} // verus!
