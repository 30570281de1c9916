//! The two case conventions of generated code, both from the crate `heck`.

use vstd::prelude::*;

verus! {

/// What heck's `to_upper_camel_case` makes of a text.
pub uninterp spec fn upper_camel_case(s: Seq<char>) -> Seq<char>;

/// What heck's `to_snake_case` makes of a text.
pub uninterp spec fn snake_case(s: Seq<char>) -> Seq<char>;

/// `heck::ToUpperCamelCase::to_upper_camel_case` on a `str`. It cuts the text
/// into words and writes each with a capital first letter, by Unicode's
/// tables alone: the same text always gives the same result. It does not fail.
#[verifier::external_body]
pub(crate) fn to_upper_camel_case(s: &str) -> (r: String)
    ensures
        r@ == upper_camel_case(s@),
{
    heck::ToUpperCamelCase::to_upper_camel_case(s)
}

/// `heck::ToSnakeCase::to_snake_case` on a `str`. It cuts the text into words
/// and writes them in lower case with `_` between them, by Unicode's tables
/// alone: the same text always gives the same result. It does not fail.
#[verifier::external_body]
pub(crate) fn to_snake_case(s: &str) -> (r: String)
    ensures
        r@ == snake_case(s@),
{
    heck::ToSnakeCase::to_snake_case(s)
}

} // verus!
