//! The error taxonomy: every failure the library reports is one of these,
//! and each carries what the caller needs to describe it.

use vstd::prelude::*;
use vstd::string::StringExecFns;
use crate::text::{spec_dec, spec_pad2, u64_to_string, pad2_string};

verus! {

/// Everything that can go wrong across the state store, the input cache,
/// the website synchronisation and the response renderer.
#[derive(Debug, Clone, PartialEq, Eq)]
pub enum Error {
    /// A platform directory could not be resolved; names which one.
    ConfigurationError { what: String },
    /// A file could not be created, opened, read or written; carries the path.
    IoError { path: String },
    /// The persisted state text is malformed.
    SerializationError,
    /// A year or day is out of bounds; names the field and the value.
    ValidationError { field: String, value: u32 },
    /// No session token is stored.
    MissingToken,
    /// The transport failed before any status line arrived.
    NetworkError { what: String },
    /// The website answered with a status other than 200; carries the body
    /// as a diagnostic.
    HttpStatusError { status: u16, body: String },
    /// The selected puzzle is already complete; no request is made.
    AlreadyComplete { year: u32, day: u32 },
    /// The response page holds no primary content region.
    ParseError,
}

/// The descriptive line shown for each error.
pub open spec fn spec_message(e: Error) -> Seq<char> {
    match e {
        Error::ConfigurationError { what } => "Failed to locate "@ + what@
            + " directory for your platform"@,
        Error::IoError { path } => "File operation failed: "@ + path@,
        Error::SerializationError => "Failed to deserialize state"@,
        Error::ValidationError { field, value } => "Invalid "@ + field@ + ": "@ + spec_dec(
            value as nat,
        ),
        Error::MissingToken => "Missing session token, have you run `arv token set`?"@,
        Error::NetworkError { what } => "Request failed: "@ + what@,
        Error::HttpStatusError { status, body } => "HTTP "@ + spec_dec(status as nat),
        Error::AlreadyComplete { year, day } => "You have already completed selected day: "@
            + spec_dec(year as nat) + "/"@ + spec_pad2(day as nat),
        Error::ParseError => "No <main> tag found"@,
    }
}

impl Error {
    /// The descriptive line for this error.
    pub fn message(&self) -> (r: String)
        ensures
            r@ == spec_message(*self),
    {
        match self {
            Error::ConfigurationError { what } => {
                let mut s = String::from_str("Failed to locate ");
                s.append(what.as_str());
                s.append(" directory for your platform");
                s
            },
            Error::IoError { path } => {
                let mut s = String::from_str("File operation failed: ");
                s.append(path.as_str());
                s
            },
            Error::SerializationError => String::from_str("Failed to deserialize state"),
            Error::ValidationError { field, value } => {
                let mut s = String::from_str("Invalid ");
                s.append(field.as_str());
                s.append(": ");
                let n = u64_to_string(*value as u64);
                s.append(n.as_str());
                s
            },
            Error::MissingToken => String::from_str(
                "Missing session token, have you run `arv token set`?",
            ),
            Error::NetworkError { what } => {
                let mut s = String::from_str("Request failed: ");
                s.append(what.as_str());
                s
            },
            Error::HttpStatusError { status, .. } => {
                let mut s = String::from_str("HTTP ");
                let n = u64_to_string(*status as u64);
                s.append(n.as_str());
                s
            },
            Error::AlreadyComplete { year, day } => {
                let mut s = String::from_str("You have already completed selected day: ");
                let y = u64_to_string(*year as u64);
                s.append(y.as_str());
                s.append("/");
                let d = pad2_string(*day as u64);
                s.append(d.as_str());
                s
            },
            Error::ParseError => String::from_str("No <main> tag found"),
        }
    }
}

} // verus!
