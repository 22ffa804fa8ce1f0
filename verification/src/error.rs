//! The typed failures of the decode pipeline.
//!
//! Decoding a class file is all-or-nothing: no error is recovered locally, every
//! failure aborts the decode of the whole file and is surfaced to the caller as
//! one of these variants.

use vstd::prelude::*;

verus! {

/// Why decoding a class file failed.
#[derive(Debug, Clone, Copy, PartialEq, Eq, Structural)]
pub enum DecodeError {
    /// Fewer bytes remain than a fixed-width or length-prefixed read requires.
    Truncated,
    /// A constant-pool entry carries a tag byte outside the fixed tag set; the
    /// format has no way to skip such an entry, so the whole decode fails.
    UnknownConstantTag(u8),
    /// A resolution helper was invoked against an index whose entry is not the
    /// expected constant-pool variant (or lies outside the pool).
    WrongConstantKind,
    /// A method that is neither abstract nor native carries no code attribute,
    /// which the symbolic model requires.
    MissingCodeAttribute,
    /// A method descriptor is not a parenthesized parameter run followed by a
    /// return type.
    BadDescriptor,
}

impl DecodeError {
    /// A short description of the failure, for callers that report it.
    pub fn message(&self) -> (r: &'static str)
        ensures
            r@.len() > 0,
    {
        proof {
            reveal_strlit("truncated input");
            reveal_strlit("unknown constant tag");
            reveal_strlit("wrong constant kind");
            reveal_strlit("missing code attribute");
            reveal_strlit("bad method descriptor");
        }
        match self {
            DecodeError::Truncated => "truncated input",
            DecodeError::UnknownConstantTag(_) => "unknown constant tag",
            DecodeError::WrongConstantKind => "wrong constant kind",
            DecodeError::MissingCodeAttribute => "missing code attribute",
            DecodeError::BadDescriptor => "bad method descriptor",
        }
    }
}

} // verus!
