//! The codec's error taxonomy.
//!
//! Tokenizer and emitter failures are wrapped with their message; the other
//! kinds report a shape mismatch between the document and the requested
//! value, or an unsupported operation.  Every error is terminal for the
//! call that raised it.

use vstd::prelude::*;

verus! {

/// Mathematical model of an error value.
pub enum ErrorV {
    XMLWError(Seq<char>),
    XMLRError(Seq<char>),
    Message(Seq<char>),
    ExpectedString,
    ExpectedChar,
    ExpectedBool,
    ExpectedInt,
    ExpectedElement,
    Unsupported,
}

/// What went wrong during an encode or decode call.
#[derive(Debug)]
pub enum Error {
    /// The underlying XML emitter failed; the message is preserved.
    XMLWError(String),
    /// The underlying XML tokenizer failed; the message is preserved.
    XMLRError(String),
    /// A framework-level complaint, such as a missing required field.
    Message(String),
    ExpectedString,
    ExpectedChar,
    ExpectedBool,
    ExpectedInt,
    ExpectedElement,
    Unsupported,
}

impl DeepView for Error {
    type V = ErrorV;

    open spec fn deep_view(&self) -> ErrorV {
        match self {
            Error::XMLWError(s) => ErrorV::XMLWError(s@),
            Error::XMLRError(s) => ErrorV::XMLRError(s@),
            Error::Message(s) => ErrorV::Message(s@),
            Error::ExpectedString => ErrorV::ExpectedString,
            Error::ExpectedChar => ErrorV::ExpectedChar,
            Error::ExpectedBool => ErrorV::ExpectedBool,
            Error::ExpectedInt => ErrorV::ExpectedInt,
            Error::ExpectedElement => ErrorV::ExpectedElement,
            Error::Unsupported => ErrorV::Unsupported,
        }
    }
}

impl Error {
    /// A human-readable description of the error.
    pub fn describe(&self) -> (r: String)
        ensures
            match self {
                Error::XMLWError(s) => r@ == s@,
                Error::XMLRError(s) => r@ == s@,
                Error::Message(s) => r@ == s@,
                _ => true,
            },
    {
        match self {
            Error::XMLWError(s) => s.clone(),
            Error::XMLRError(s) => s.clone(),
            Error::Message(s) => s.clone(),
            Error::ExpectedString => "expected a string".to_owned(),
            Error::ExpectedChar => "expected a char".to_owned(),
            Error::ExpectedBool => "expected a bool".to_owned(),
            Error::ExpectedInt => "expected a number".to_owned(),
            Error::ExpectedElement => "expected an element".to_owned(),
            Error::Unsupported => "unsupported operation".to_owned(),
        }
    }

    /// Copies the error.
    pub fn duplicate(&self) -> (r: Error)
        ensures
            r.deep_view() == self.deep_view(),
    {
        match self {
            Error::XMLWError(s) => Error::XMLWError(s.clone()),
            Error::XMLRError(s) => Error::XMLRError(s.clone()),
            Error::Message(s) => Error::Message(s.clone()),
            Error::ExpectedString => Error::ExpectedString,
            Error::ExpectedChar => Error::ExpectedChar,
            Error::ExpectedBool => Error::ExpectedBool,
            Error::ExpectedInt => Error::ExpectedInt,
            Error::ExpectedElement => Error::ExpectedElement,
            Error::Unsupported => Error::Unsupported,
        }
    }
}

} // verus!
