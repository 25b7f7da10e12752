//! Numbers and letters as std writes them.

use vstd::prelude::*;

verus! {

/// A number written in decimal, as std writes it.
pub uninterp spec fn decimal_text(number: int) -> Seq<char>;

/// A text in upper case, as std turns it.
pub uninterp spec fn upper_case(text: Seq<char>) -> Seq<char>;

/// Writes a number with `i64::to_string`. Believed, not proved: the text
/// depends on the number alone.
#[verifier::external_body]
pub(crate) fn decimal(number: i64) -> (r: String)
    ensures
        r@ == decimal_text(number as int),
{
    number.to_string()
}

/// Turns a text to upper case with `str::to_uppercase`. Believed, not
/// proved: the outcome depends on the text alone.
#[verifier::external_body]
pub(crate) fn upper(text: &str) -> (r: String)
    ensures
        r@ == upper_case(text@),
{
    text.to_uppercase()
}

} // verus!
