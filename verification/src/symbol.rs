//! Coin symbols. The ledger files every trade under the upper-case form of
//! its symbol, so that `btc` and `BTC` name the same coin.

use vstd::prelude::*;

verus! {

/// The upper-case form of a text, as `str::to_uppercase` of the standard
/// library computes it from the Unicode character tables. The conversion is
/// not written out here; nothing is claimed of it but that it is a function
/// of the text.
pub uninterp spec fn uppercase_of(text: Seq<char>) -> Seq<char>;

/// Calls `str::to_uppercase`. Trusted: the result is the upper-case form of
/// `text`, which depends on `text` alone.
#[verifier::external_body]
pub(crate) fn to_uppercase(text: &str) -> (upper: String)
    ensures
        upper@ == uppercase_of(text@),
{
    text.to_uppercase()
}

} // verus!
