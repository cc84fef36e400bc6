//! The one error value a parse returns.
use vstd::prelude::*;
use vstd::string::*;
use crate::emit::{nat_digits, uint_text};

verus! {

/// Errors that can occur when parsing Gerber data.
#[derive(Clone, Debug, PartialEq)]
pub enum GerberError {
    /// The source text could not be read.
    IoError(String),
    /// The grammar engine rejected the text.
    ParseError {
        /// Line number where the error occurred.
        line: usize,
        /// Description of the error.
        message: String,
    },
    /// A recognized command could not be decoded.
    SemanticError(String),
}

/// `e` is a semantic error with message `m`.
pub open spec fn is_semantic(e: GerberError, m: Seq<char>) -> bool {
    e matches GerberError::SemanticError(s) && s@ == m
}

/// The text a user reads for `e`.
pub open spec fn error_text(e: GerberError) -> Seq<char> {
    match e {
        GerberError::IoError(m) => "I/O error: "@ + m@,
        GerberError::ParseError { line, message } => "Parse error at line "@ + nat_digits(
            line as nat,
        ) + ": "@ + message@,
        GerberError::SemanticError(m) => "Semantic error: "@ + m@,
    }
}

/// A semantic error with message `m`.
pub fn semantic(m: &str) -> (e: GerberError)
    ensures
        is_semantic(e, m@),
{
    GerberError::SemanticError(String::from_str(m))
}

/// A semantic error whose message is `a`, then `b`.
pub fn semantic2(a: &str, b: &str) -> (e: GerberError)
    ensures
        is_semantic(e, a@ + b@),
{
    GerberError::SemanticError(String::from_str(a).concat(b))
}

/// A semantic error whose message is `a`, then `b`, then `c`.
pub fn semantic3(a: &str, b: &str, c: &str) -> (e: GerberError)
    ensures
        is_semantic(e, a@ + b@ + c@),
{
    let s = String::from_str(a).concat(b).concat(c);
    GerberError::SemanticError(s)
}

impl GerberError {
    /// The text a user reads for this error.
    pub fn message(&self) -> (r: String)
        ensures
            r@ == error_text(*self),
    {
        match self {
            GerberError::IoError(m) => String::from_str("I/O error: ").concat(m.as_str()),
            GerberError::ParseError { line, message } => {
                let digits = uint_text(*line as u64);
                String::from_str("Parse error at line ").concat(digits.as_str()).concat(
                    ": ",
                ).concat(message.as_str())
            },
            GerberError::SemanticError(m) => String::from_str("Semantic error: ").concat(
                m.as_str(),
            ),
        }
    }
}

} // verus!

verus! {

/// An executable result agrees with a decoded one: the same value, or a
/// semantic error with the same message.
pub open spec fn agrees<T>(r: Result<T, GerberError>, s: Result<T, Seq<char>>) -> bool {
    match s {
        Ok(v) => r == Ok::<T, GerberError>(v),
        Err(m) => r matches Err(e) && is_semantic(e, m),
    }
}

} // verus!
