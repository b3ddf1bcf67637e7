//! The error taxonomy of the parser. Every error is fatal to the whole
//! run: no partial schema is ever produced.
use vstd::prelude::*;

use crate::typ::Type;

verus! {

/// Specification-level model of a parse error, carrying the offending
/// text so a failure can be traced to its source.
pub ghost enum ErrorV {
    /// A segmented block did not have exactly two logical lines.
    BlockShape { block: Seq<u8> },
    /// A header line matched no branch of the record grammar.
    Grammar { line: Seq<u8> },
    /// A type hint or open-list element type is not a recognized name.
    UnknownType { token: Seq<u8> },
    /// A boolean token other than `true` or `false`.
    UnknownBoolean { token: Seq<u8> },
    /// An integer token that is not a valid signed 64-bit decimal.
    InvalidInteger { token: Seq<u8> },
    /// An array token other than the empty array literal.
    ArrayLiteral { token: Seq<u8> },
    /// A default value was requested for a type with no literal syntax.
    UnsupportedType { typ: Type },
}

/// A fatal parse error, with the raw text (or type) that caused it.
#[derive(Debug)]
pub enum ParseError {
    BlockShape { block: Vec<u8> },
    Grammar { line: Vec<u8> },
    UnknownType { token: Vec<u8> },
    UnknownBoolean { token: Vec<u8> },
    InvalidInteger { token: Vec<u8> },
    ArrayLiteral { token: Vec<u8> },
    UnsupportedType { typ: Type },
}

impl View for ParseError {
    type V = ErrorV;

    open spec fn view(&self) -> ErrorV {
        match self {
            ParseError::BlockShape { block } => ErrorV::BlockShape { block: block@ },
            ParseError::Grammar { line } => ErrorV::Grammar { line: line@ },
            ParseError::UnknownType { token } => ErrorV::UnknownType { token: token@ },
            ParseError::UnknownBoolean { token } => ErrorV::UnknownBoolean { token: token@ },
            ParseError::InvalidInteger { token } => ErrorV::InvalidInteger { token: token@ },
            ParseError::ArrayLiteral { token } => ErrorV::ArrayLiteral { token: token@ },
            ParseError::UnsupportedType { typ } => ErrorV::UnsupportedType { typ: *typ },
        }
    }
}

} // verus!
