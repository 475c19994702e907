//! Case classification and conversion of field names.
//!
//! Field names are normalised to snake case before they are stored. The
//! conversion itself is done by the `inflector` crate; its result is a
//! pure function of the input characters, named [`snake_of`] here so that
//! callers' contracts can speak of it exactly.

use vstd::prelude::*;

verus! {

/// The snake-case conversion of the given characters, as
/// `inflector::cases::snakecase::to_snake_case` computes it. The result
/// depends on the characters alone.
pub uninterp spec fn snake_of(s: Seq<char>) -> Seq<char>;

/// Relies on `inflector::cases::snakecase::to_snake_case`: a pure
/// conversion of its input, named [`snake_of`] here.
#[verifier::external_body]
pub(crate) fn to_snake_case(s: &str) -> (r: String)
    ensures
        r@ == snake_of(s@),
{
    inflector::cases::snakecase::to_snake_case(s)
}

/// Relies on `inflector::cases::snakecase::is_snake_case`, whose body
/// returns whether the string equals its own snake-case conversion.
#[verifier::external_body]
pub(crate) fn is_snake_case(s: &str) -> (r: bool)
    ensures
        r == (s@ == snake_of(s@)),
{
    inflector::cases::snakecase::is_snake_case(s)
}

} // verus!
