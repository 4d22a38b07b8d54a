//! Operations on texts that the standard library provides.
use crate::lexzer::int_literal;
use vstd::prelude::*;

verus! {

/// Compares two texts with `str`'s `==`, which holds exactly when the two
/// hold the same characters in the same order.
#[verifier::external_body]
pub(crate) fn same_text(a: &str, b: &str) -> (r: bool)
    ensures
        r == (a@ == b@),
{
    a == b
}

/// Joins two texts with `concat` on a slice of `str`: the result holds the
/// characters of the first, then those of the second.
#[verifier::external_body]
pub(crate) fn join(a: &str, b: &str) -> (r: String)
    ensures
        r@ == a@ + b@,
{
    [a, b].concat()
}

/// Writes an integer with `i64`'s `to_string`: the result is a literal that
/// reads back as the same integer.
#[verifier::external_body]
pub(crate) fn decimal(n: i64) -> (r: String)
    ensures
        int_literal(r@) == Some(n),
{
    n.to_string()
}

/// Writes a character with `char`'s `to_string`: the result holds that one
/// character.
#[verifier::external_body]
pub(crate) fn char_text(c: char) -> (r: String)
    ensures
        r@ == seq![c],
{
    c.to_string()
}

} // verus!
