//! The random draws the library takes from the thread-local generator.
//!
//! Nothing here is proved: each function states what the generator's
//! documentation and source promise of every outcome, and no more.

use vstd::prelude::*;
use rand::seq::IndexedRandom;
use crate::decimal::Decimal;

verus! {

/// Draws an integer from `low..high` with `rand::random_range`.
///
/// The generator panics on an empty range, which the precondition excludes;
/// every draw lies in the half-open range.
#[verifier::external_body]
pub(crate) fn random_below(low: i32, high: i32) -> (r: i32)
    requires
        low < high,
    ensures
        low <= r < high,
{
    rand::random_range(low..high)
}

/// Draws a coin with `rand::random`. Either outcome can come back.
#[verifier::external_body]
pub(crate) fn random_flag() -> (r: bool) {
    rand::random::<bool>()
}

/// Picks one pair with the slice method `choose` of `rand::seq::IndexedRandom`.
///
/// An empty list gives nothing; any other list gives one of its members.
#[verifier::external_body]
pub(crate) fn choose_pair(pairs: &Vec<(Decimal, Decimal)>) -> (r: Option<(Decimal, Decimal)>)
    ensures
        pairs@.len() == 0 ==> r is None,
        pairs@.len() > 0 ==> r is Some && pairs@.contains(r->0),
{
    pairs.choose(&mut rand::rng()).copied()
}

} // verus!
