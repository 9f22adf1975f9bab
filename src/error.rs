//! The canonical error that every failure is reported as.
use vstd::prelude::*;

verus! {

/// Code of the error that stands for "none of the known shapes matched" and
/// for an empty price series.
pub const UNKNOWN_ERROR_CODE: u16 = 600;

/// Code of failures that happen before any upstream body is available.
pub const TRANSPORT_ERROR_CODE: u16 = 0;

pub open spec fn unknown_error_message() -> Seq<char> {
    "Unknown error occurred"@
}

#[derive(Clone, Debug)]
pub struct TokenError {
    pub error_code: u16,
    pub error_message: String,
}

impl TokenError {
    /// The error as a code and the characters of its message.
    pub open spec fn model(self) -> (u16, Seq<char>) {
        (self.error_code, self.error_message@)
    }
}

/// The sentinel error: code 600, "Unknown error occurred".
pub fn unknown_error() -> (r: TokenError)
    ensures
        r.model() == (UNKNOWN_ERROR_CODE, unknown_error_message()),
{
    TokenError { error_code: UNKNOWN_ERROR_CODE, error_message: String::from_str("Unknown error occurred") }
}

/// An error with `code` whose message is `message`, a colon, a space and the
/// description of the underlying `error`.
pub fn handle_error(error: &str, code: u16, message: &str) -> (r: TokenError)
    ensures
        r.model() == (code, message@ + ": "@ + error@),
{
    let mut text = String::from_str(message);
    text.append(": ");
    text.append(error);
    TokenError { error_code: code, error_message: text }
}

/// The HTTP status under which a caller reports an error with `code`:
/// unauthorized, not found, too many requests, or internal server error.
pub fn http_status_for(code: u16) -> (r: u16)
    ensures
        r == (if code == 10012 {
            401u16
        } else if code == 404 {
            404
        } else if code == 429 {
            429
        } else {
            500
        }),
{
    if code == 10012 {
        401
    } else if code == 404 {
        404
    } else if code == 429 {
        429
    } else {
        500
    }
}

} // verus!
