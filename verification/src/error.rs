//! The crate's error taxonomy, and how each error is answered.
//!
//! Errors local to one request (a missing header, an unknown theme, a
//! rejected body) become a response-level failure and touch no shared
//! state; errors of one reload attempt stay inside the watcher and
//! never reach a handler.  An unknown theme, a missing or unusable
//! token and a rejected body are the client's own failures, answered
//! with a 4xx status and a code in the 1000 series; everything else
//! is answered as an internal failure.

use vstd::prelude::*;

use crate::json::dec_digits;
use crate::json::dec_string;

verus! {

/// Everything that can go wrong in this crate's own logic.
#[derive(Debug, PartialEq, Eq)]
pub enum Error {
    /// A configuration source failed to parse: which source, and at
    /// which character offset.
    ConfigParse { source: usize, at: usize },
    /// The merged configuration does not fit the expected schema.
    ConfigSchema { field: String },
    /// A request named something the configuration does not have.
    InvalidInput { reason: String },
    /// A request body could not be used.
    BadRequest { message: String },
    /// The request carried no authorization header.
    MissingAuth,
    /// The request carried an unusable token.
    InvalidToken,
    /// The request body was rejected before reaching a handler.
    InvalidJsonBody { message: String },
    /// The document compiler failed to produce a report.
    TypstPdf { message: String },
}

/// The text an error shows an operator.
pub open spec fn spec_message(e: Error) -> Seq<char> {
    match e {
        Error::ConfigParse { source, at } => "Failed to parse config source "@ + dec_digits(
            source as nat,
        ) + " at offset "@ + dec_digits(at as nat),
        Error::ConfigSchema { field } => "Failed to read config field: "@ + field@,
        Error::InvalidInput { reason } => "Invalid input: "@ + reason@,
        Error::BadRequest { message } => "Bad request: "@ + message@,
        Error::MissingAuth => "Missing Authorization"@,
        Error::InvalidToken => "Invalid Token"@,
        Error::InvalidJsonBody { message } => "Invalid Json Body. "@ + message@,
        Error::TypstPdf { message } => "Failed to generate pdf:"@ + message@,
    }
}

/// The HTTP status an error is answered with: a request naming an
/// unknown theme is the client's error and gets 404, authorization
/// failures get 401, a rejected body 422; everything else is answered
/// as an internal failure.
pub open spec fn spec_status(e: Error) -> int {
    match e {
        Error::InvalidInput { reason } => 404,
        Error::MissingAuth => 401,
        Error::InvalidToken => 401,
        Error::InvalidJsonBody { message } => 422,
        _ => 500,
    }
}

/// The machine-readable code an error is answered with: the 1000
/// series for client-facing failures, 5000 for internal ones.
pub open spec fn spec_code(e: Error) -> int {
    match e {
        Error::InvalidInput { reason } => 1004,
        Error::MissingAuth => 1001,
        Error::InvalidToken => 1003,
        Error::InvalidJsonBody { message } => 1005,
        _ => 5000,
    }
}

impl Error {
    /// The text shown for this error, exactly `spec_message`.
    pub fn message(&self) -> (r: String)
        ensures
            r@ == spec_message(*self),
    {
        match self {
            Error::ConfigParse { source, at } => String::from_str("Failed to parse config source ")
                .concat(dec_string(*source as u64).as_str()).concat(" at offset ").concat(
                dec_string(*at as u64).as_str(),
            ),
            Error::ConfigSchema { field } => String::from_str("Failed to read config field: ")
                .concat(field.as_str()),
            Error::InvalidInput { reason } => String::from_str("Invalid input: ").concat(
                reason.as_str(),
            ),
            Error::BadRequest { message } => String::from_str("Bad request: ").concat(
                message.as_str(),
            ),
            Error::MissingAuth => String::from_str("Missing Authorization"),
            Error::InvalidToken => String::from_str("Invalid Token"),
            Error::InvalidJsonBody { message } => String::from_str("Invalid Json Body. ").concat(
                message.as_str(),
            ),
            Error::TypstPdf { message } => String::from_str("Failed to generate pdf:").concat(
                message.as_str(),
            ),
        }
    }

    /// What a handler answers for this error: status, code, and the
    /// text — an unknown theme as 404, authorization failures as 401,
    /// a rejected body as 422, and everything else as an internal
    /// failure, exactly as `spec_status` and `spec_code` say.
    pub fn response_parts(&self) -> (r: (u16, u32, String))
        ensures
            r.0 as int == spec_status(*self),
            r.1 as int == spec_code(*self),
            r.2@ == spec_message(*self),
    {
        let message = self.message();
        let status: u16 = match self {
            Error::InvalidInput { reason: _ } => 404,
            Error::MissingAuth => 401,
            Error::InvalidToken => 401,
            Error::InvalidJsonBody { message: _ } => 422,
            _ => 500,
        };
        let code: u32 = match self {
            Error::InvalidInput { reason: _ } => 1004,
            Error::MissingAuth => 1001,
            Error::InvalidToken => 1003,
            Error::InvalidJsonBody { message: _ } => 1005,
            _ => 5000,
        };
        (status, code, message)
    }

    /// Wraps the text of a rejected request body as the rejected-body
    /// error, which a handler answers with 422 — the extraction
    /// layer's conversion of a body rejection.
    pub fn from_json_rejection_text(text: &String) -> (r: Error)
        ensures
            r matches Error::InvalidJsonBody { message } && message@ == text@,
    {
        Error::InvalidJsonBody { message: text.clone() }
    }
}

} // verus!
