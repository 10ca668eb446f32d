//! Which characters an identifier is made of.

use vstd::prelude::*;

verus! {

/// Whether a character is alphabetic: what `char::is_alphabetic` of std
/// returns for it.
pub uninterp spec fn is_alphabetic(c: char) -> bool;

/// Whether a character is alphabetic or numeric: what
/// `char::is_alphanumeric` of std returns for it.
pub uninterp spec fn is_alphanumeric(c: char) -> bool;

/// `char::is_alphabetic` of std. Its result depends on the character alone;
/// the contract claims no more than that, by giving the result its name.
#[verifier::external_body]
fn alphabetic(c: char) -> (r: bool)
    ensures
        r == is_alphabetic(c),
{
    c.is_alphabetic()
}

/// `char::is_alphanumeric` of std. Its result depends on the character
/// alone; the contract claims no more than that, by giving the result its
/// name.
#[verifier::external_body]
fn alphanumeric(c: char) -> (r: bool)
    ensures
        r == is_alphanumeric(c),
{
    c.is_alphanumeric()
}

/// `c` may start an identifier: a letter or `_`.
pub open spec fn starts_identifier(c: char) -> bool {
    c == '_' || is_alphabetic(c)
}

/// `c` may stand in an identifier behind its first character: a letter, a
/// numeric character or `_`.
pub open spec fn continues_identifier(c: char) -> bool {
    c == '_' || is_alphanumeric(c)
}

/// Tells whether `c` may start an identifier.
pub fn identifier_start(c: char) -> (r: bool)
    ensures
        r == starts_identifier(c),
{
    c == '_' || alphabetic(c)
}

/// Tells whether `c` may stand in an identifier behind its first character.
pub fn identifier_part(c: char) -> (r: bool)
    ensures
        r == continues_identifier(c),
{
    c == '_' || alphanumeric(c)
}

} // verus!
