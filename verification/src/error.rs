//! Errors reported while binding a record against the environment.
//!
//! A missing environment variable is *not* an error: absence only means that
//! the field keeps its current value.  An error is raised when a variable is
//! present but its bytes are not valid unicode, or when its text cannot be
//! decoded into the field's value type.

use vstd::prelude::*;

verus! {

/// Mathematical image of a binding error: the variable's name together with
/// either the raw bytes that failed to decode as text, or the decoder's
/// message.
pub enum ErrorV {
    /// The variable named `name` held bytes `raw` that are not valid unicode.
    NotUnicode { name: Seq<char>, raw: Seq<u8> },
    /// The variable named `name` held text that the field's decoder rejected
    /// with `message`.
    Parse { name: Seq<char>, message: Seq<char> },
}

impl ErrorV {
    /// The name of the environment variable the error speaks of.
    pub open spec fn name(self) -> Seq<char> {
        match self {
            ErrorV::NotUnicode { name, .. } => name,
            ErrorV::Parse { name, .. } => name,
        }
    }
}

/// Errors generated when populating a record from the environment.
///
/// Each variant carries the exact name of the offending variable; the error is
/// propagated to the caller verbatim, never wrapped or downgraded.
#[derive(Clone, Debug, PartialEq, Eq)]
pub enum FromEnvError {
    /// An environment variable was found, but its value was not valid unicode.
    NotUnicode(String, Vec<u8>),
    /// A unicode environment variable was found, but it could not be parsed.
    ParseError(String, String),
}

impl View for FromEnvError {
    type V = ErrorV;

    open spec fn view(&self) -> ErrorV {
        match self {
            FromEnvError::NotUnicode(name, raw) => ErrorV::NotUnicode {
                name: name@,
                raw: raw@,
            },
            FromEnvError::ParseError(name, message) => ErrorV::Parse {
                name: name@,
                message: message@,
            },
        }
    }
}

impl FromEnvError {
    /// The name of the environment variable whose value was rejected.
    pub fn variable(&self) -> (r: &String)
        ensures
            r@ == self@.name(),
    {
        match self {
            FromEnvError::NotUnicode(name, _) => name,
            FromEnvError::ParseError(name, _) => name,
        }
    }
}

/// The image of an exec binding result, with the error replaced by its view.
pub open spec fn result_view(r: Result<bool, FromEnvError>) -> Result<bool, ErrorV> {
    match r {
        Ok(found) => Ok(found),
        Err(e) => Err(e@),
    }
}

} // verus!
