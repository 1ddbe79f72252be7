use vstd::prelude::*;
use crate::strings::{concat_str, decimal, decimal_string};

verus! {

/// Everything that can go wrong while reading, checking or storing a bundle.
///
/// The I/O variant carries the text of the operating-system error rather than
/// the error value itself: the library never performs I/O, it only reports
/// what the caller observed.
#[derive(Debug, Clone)]
pub enum Error {
    Io { context: String, source: String },
    InvalidFormat(String),
    Cbor(String),
    DigestMismatch { expected: String, actual: String },
    SignatureVerification(String),
    StorePath(String),
    Mount(String),
    IndexOutOfRange { what: String, index: usize, max: usize },
    NotFound(String),
    Other(String),
}

/// Result type used throughout the library.
pub type Result<T> = core::result::Result<T, Error>;

/// An `InvalidFormat` error whose message is exactly `msg`.
pub open spec fn is_invalid_format(e: Error, msg: Seq<char>) -> bool {
    e matches Error::InvalidFormat(m) && m@ == msg
}

/// Builds an owned string from a literal.
pub fn text(s: &str) -> (r: String)
    ensures
        r@ == s@,
{
    String::from_str(s)
}

} // verus!

verus! {

/// The text of an error, as the library's errors are displayed.
pub open spec fn error_text(e: Error) -> Seq<char> {
    match e {
        Error::Io { context, source } => "I/O error "@ + context@ + ": "@ + source@,
        Error::InvalidFormat(m) => "invalid format: "@ + m@,
        Error::Cbor(m) => "CBOR error: "@ + m@,
        Error::DigestMismatch { expected, actual } => "digest mismatch: expected "@ + expected@ + ", got "@
            + actual@,
        Error::SignatureVerification(m) => "signature error: "@ + m@,
        Error::StorePath(m) => "store error: "@ + m@,
        Error::Mount(m) => "mount error: "@ + m@,
        Error::IndexOutOfRange { what, index, max } => what@ + " index "@ + decimal(index as nat)
            + " out of range (max "@ + decimal(max as nat) + ")"@,
        Error::NotFound(m) => "not found: "@ + m@,
        Error::Other(m) => m@,
    }
}

impl Error {
    /// The text of the error (see `error_text`).
    pub fn message(&self) -> (r: String)
        ensures
            r@ == error_text(*self),
    {
        let r = match self {
            Error::Io { context, source } => {
                let mut s = text("I/O error ");
                s.append(context.as_str());
                s.append(": ");
                s.append(source.as_str());
                s
            },
            Error::InvalidFormat(m) => concat_str("invalid format: ", m.as_str()),
            Error::Cbor(m) => concat_str("CBOR error: ", m.as_str()),
            Error::DigestMismatch { expected, actual } => {
                let mut s = text("digest mismatch: expected ");
                s.append(expected.as_str());
                s.append(", got ");
                s.append(actual.as_str());
                s
            },
            Error::SignatureVerification(m) => concat_str("signature error: ", m.as_str()),
            Error::StorePath(m) => concat_str("store error: ", m.as_str()),
            Error::Mount(m) => concat_str("mount error: ", m.as_str()),
            Error::IndexOutOfRange { what, index, max } => {
                let mut s = what.clone();
                s.append(" index ");
                s.append(decimal_string(*index as u64).as_str());
                s.append(" out of range (max ");
                s.append(decimal_string(*max as u64).as_str());
                s.append(")");
                s
            },
            Error::NotFound(m) => concat_str("not found: ", m.as_str()),
            Error::Other(m) => m.clone(),
        };
        r
    }
}

} // verus!
