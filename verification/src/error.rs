//! The library's two failure kinds.
//!
//! Every failure is a deterministic function of the input: identifier
//! validation or sanitization rejects a string, or registry construction
//! meets a duplicated name. Nothing here is fatal to the caller.

use vstd::prelude::*;

use crate::ident::Id;

verus! {

/// Why a string was rejected as an identifier.
#[derive(Debug, PartialEq, Eq)]
pub enum IdentError {
    /// The string was empty.
    Empty,
    /// The string was the single placeholder character `_`.
    Placeholder,
    /// The string is a reserved word of the target language.
    ReservedWord,
    /// The character at this index is not legal at its position.
    InvalidChar(usize),
    /// No legal identifier could be derived from the string.
    NotSanitizable,
}

/// An error raised by the library.
#[derive(Debug)]
pub enum Error {
    /// A user-supplied name is not a legal identifier.
    InvalidIdentifier(IdentError),
    /// Two declarations (or two fields) carry the same name.
    DuplicateName(Id),
}

} // verus!
