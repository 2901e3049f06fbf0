//! Common error types and handling utilities.

use std::fmt::Display;
use vstd::prelude::*;
use vstd::std_specs::convert::{FromSpecImpl, IntoSpec};
use vstd::string::{to_string_from_display_ensures, StringExecFns};

verus! {

/// `std::io::Error`, carried as it is: nothing inside it is read here; its
/// text is what it displays.
#[verifier::external_type_specification]
#[verifier::external_body]
pub struct ExIoError(std::io::Error);

/// Common error type for ecosystem projects.
#[derive(Debug)]
pub enum CommonError {
    /// Invalid input provided to a function.
    InvalidInput(String),
    /// Configuration error.
    Config(String),
    /// IO operation failed.
    Io(std::io::Error),
    /// Parse error for various formats.
    Parse(String),
    /// Resource not found.
    NotFound(String),
    /// Operation not permitted.
    PermissionDenied(String),
    /// Operation timed out.
    Timeout(String),
    /// External service error.
    External(String),
    /// Generic error with custom message.
    Custom(String),
}

/// Result type alias using [`CommonError`].
pub type CommonResult<T> = Result<T, CommonError>;

impl From<std::io::Error> for CommonError {
    fn from(error: std::io::Error) -> (e: CommonError) {
        CommonError::Io(error)
    }
}

impl FromSpecImpl<std::io::Error> for CommonError {
    open spec fn obeys_from_spec() -> bool {
        true
    }

    open spec fn from_spec(error: std::io::Error) -> CommonError {
        CommonError::Io(error)
    }
}

impl CommonError {
    /// Whether `text` is a way this error reads: the heading of its kind,
    /// then its message. The message of an IO error is whatever that error
    /// displays.
    pub open spec fn reads_as(self, text: Seq<char>) -> bool {
        match self {
            CommonError::InvalidInput(msg) => text == "Invalid input: "@ + msg@,
            CommonError::Config(msg) => text == "Configuration error: "@ + msg@,
            CommonError::Io(error) => exists|shown: String|
                to_string_from_display_ensures(&error, shown) && text == "IO error: "@ + shown@,
            CommonError::Parse(msg) => text == "Parse error: "@ + msg@,
            CommonError::NotFound(msg) => text == "Not found: "@ + msg@,
            CommonError::PermissionDenied(msg) => text == "Permission denied: "@ + msg@,
            CommonError::Timeout(msg) => text == "Timeout: "@ + msg@,
            CommonError::External(msg) => text == "External error: "@ + msg@,
            CommonError::Custom(msg) => text == msg@,
        }
    }

    /// Create a new invalid input error.
    pub fn invalid_input<M: Into<String>>(msg: M) -> (e: Self)
        ensures
            exists|text: String| call_ensures(M::into, (msg,), text) && e == CommonError::InvalidInput(text),
            M::obeys_into_spec() ==> e == CommonError::InvalidInput(msg.into_spec()),
    {
        CommonError::InvalidInput(msg.into())
    }

    /// Create a new configuration error.
    pub fn config<M: Into<String>>(msg: M) -> (e: Self)
        ensures
            exists|text: String| call_ensures(M::into, (msg,), text) && e == CommonError::Config(text),
            M::obeys_into_spec() ==> e == CommonError::Config(msg.into_spec()),
    {
        CommonError::Config(msg.into())
    }

    /// Create a new parse error.
    pub fn parse<M: Into<String>>(msg: M) -> (e: Self)
        ensures
            exists|text: String| call_ensures(M::into, (msg,), text) && e == CommonError::Parse(text),
            M::obeys_into_spec() ==> e == CommonError::Parse(msg.into_spec()),
    {
        CommonError::Parse(msg.into())
    }

    /// Create a new not found error.
    pub fn not_found<M: Into<String>>(msg: M) -> (e: Self)
        ensures
            exists|text: String| call_ensures(M::into, (msg,), text) && e == CommonError::NotFound(text),
            M::obeys_into_spec() ==> e == CommonError::NotFound(msg.into_spec()),
    {
        CommonError::NotFound(msg.into())
    }

    /// Create a new custom error.
    pub fn custom<M: Into<String>>(msg: M) -> (e: Self)
        ensures
            exists|text: String| call_ensures(M::into, (msg,), text) && e == CommonError::Custom(text),
            M::obeys_into_spec() ==> e == CommonError::Custom(msg.into_spec()),
    {
        CommonError::Custom(msg.into())
    }

    /// Check if this is an input validation error.
    pub fn is_input_error(&self) -> (b: bool)
        ensures
            b == (self is InvalidInput || self is Parse),
    {
        match self {
            CommonError::InvalidInput(_) | CommonError::Parse(_) => true,
            _ => false,
        }
    }

    /// Check if this is a recoverable error.
    pub fn is_recoverable(&self) -> (b: bool)
        ensures
            b == (self is Timeout || self is External),
    {
        match self {
            CommonError::Timeout(_) | CommonError::External(_) => true,
            _ => false,
        }
    }

    /// Renders the error as text.
    pub fn message(&self) -> (text: String)
        ensures
            self.reads_as(text@),
    {
        match self {
            CommonError::InvalidInput(msg) => "Invalid input: ".to_owned().concat(msg.as_str()),
            CommonError::Config(msg) => "Configuration error: ".to_owned().concat(msg.as_str()),
            CommonError::Io(error) => {
                let shown = error.to_string();
                "IO error: ".to_owned().concat(shown.as_str())
            },
            CommonError::Parse(msg) => "Parse error: ".to_owned().concat(msg.as_str()),
            CommonError::NotFound(msg) => "Not found: ".to_owned().concat(msg.as_str()),
            CommonError::PermissionDenied(msg) => "Permission denied: ".to_owned().concat(
                msg.as_str(),
            ),
            CommonError::Timeout(msg) => "Timeout: ".to_owned().concat(msg.as_str()),
            CommonError::External(msg) => "External error: ".to_owned().concat(msg.as_str()),
            CommonError::Custom(msg) => msg.clone(),
        }
    }
}

/// Extension trait for Result types.
pub trait ResultExt<T> {
    /// Convert any error to a `CommonError` with context.
    fn with_context(self, context: &str) -> CommonResult<T>;
}

/// What `with_context` makes of a result: a success is kept; an error
/// becomes a custom error that reads `context`, a colon and a space, and
/// the error as it displays.
pub open spec fn in_context<T, E: Display>(
    given: Result<T, E>,
    context: Seq<char>,
    result: CommonResult<T>,
) -> bool {
    match given {
        Ok(value) => result == Ok::<T, CommonError>(value),
        Err(error) => exists|shown: String|
            {
                &&& to_string_from_display_ensures(&error, shown)
                &&& result matches Err(CommonError::Custom(msg))
                &&& msg@ == context + ": "@ + shown@
            },
    }
}

impl<T, E: Display> ResultExt<T> for Result<T, E> {
    fn with_context(self, context: &str) -> (result: CommonResult<T>)
        ensures
            in_context(self, context@, result),
    {
        match self {
            Ok(value) => Ok(value),
            Err(error) => {
                let shown = error.to_string();
                let msg = context.to_owned().concat(": ").concat(shown.as_str());
                Err(CommonError::Custom(msg))
            },
        }
    }
}

} // verus!
