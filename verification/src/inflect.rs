//! Name inflection for code generation, through the Inflector crate.
//!
//! The inflections are involved string rewrites, so each result is only
//! named here: the names stand for what the Inflector crate returns,
//! which depends on the input characters alone.

use inflector::Inflector;
use vstd::prelude::*;

verus! {

/// What Inflector's singularization returns for a word.
pub uninterp spec fn singular_of(s: Seq<char>) -> Seq<char>;

/// What Inflector's snake_case conversion returns for a word.
pub uninterp spec fn snake_of(s: Seq<char>) -> Seq<char>;

/// What Inflector's ClassCase conversion returns for a word.
pub uninterp spec fn class_of(s: Seq<char>) -> Seq<char>;

/// Relies on Inflector's to_singular: a deterministic rewrite of the
/// input characters alone.
#[verifier::external_body]
pub(crate) fn to_singular(s: &str) -> (r: String)
    ensures
        r@ == singular_of(s@),
{
    s.to_singular()
}

/// Relies on Inflector's to_snake_case: a deterministic rewrite of the
/// input characters alone.
#[verifier::external_body]
pub(crate) fn to_snake_case(s: &str) -> (r: String)
    ensures
        r@ == snake_of(s@),
{
    s.to_snake_case()
}

/// Relies on Inflector's to_class_case: a deterministic rewrite of the
/// input characters alone.
#[verifier::external_body]
pub(crate) fn to_class_case(s: &str) -> (r: String)
    ensures
        r@ == class_of(s@),
{
    s.to_class_case()
}

} // verus!
