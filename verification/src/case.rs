//! Unicode case of characters, as std computes it.
use vstd::prelude::*;

verus! {

/// The characters that `char::to_uppercase` yields for `c`.
pub uninterp spec fn upper_mapping(c: char) -> Seq<char>;

/// The characters that `char::to_lowercase` yields for `c`.
pub uninterp spec fn lower_mapping(c: char) -> Seq<char>;

/// Whether `c` has the Unicode `Uppercase` property (`char::is_uppercase`).
pub uninterp spec fn uppercase_property(c: char) -> bool;

/// `char::to_uppercase`, collected into a string. The std documentation
/// promises one or more characters; which ones is Unicode's uppercase
/// mapping of `c`, named here and not spelled out.
#[verifier::external_body]
pub(crate) fn uppercase_of(c: char) -> (r: String)
    ensures
        r@ == upper_mapping(c),
        r@.len() >= 1,
{
    c.to_uppercase().collect()
}

/// `char::to_lowercase`, collected into a string. The std documentation
/// promises one or more characters; which ones is Unicode's lowercase
/// mapping of `c`, named here and not spelled out.
#[verifier::external_body]
pub(crate) fn lowercase_of(c: char) -> (r: String)
    ensures
        r@ == lower_mapping(c),
        r@.len() >= 1,
{
    c.to_lowercase().collect()
}

/// `char::is_uppercase`: whether `c` has the Unicode `Uppercase` property,
/// named here and not spelled out.
#[verifier::external_body]
pub(crate) fn is_uppercase(c: char) -> (r: bool)
    ensures
        r == uppercase_property(c),
{
    c.is_uppercase()
}

} // verus!
