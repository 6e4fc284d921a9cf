//! Random draws, made by the `rand` crate.

use vstd::prelude::*;

use crate::powerups::PowerUp;

verus! {

/// Relies on `rand::random_range`: a uniform draw from `0..n`, which panics
/// only on an empty range.
#[verifier::external_body]
pub(crate) fn random_below(n: usize) -> (r: usize)
    requires
        n > 0,
    ensures
        r < n,
{
    rand::random_range(0..n)
}

/// Relies on `rand::random_ratio`: `true` with chance `numerator / denominator`;
/// it panics only when the ratio is not a probability.
#[verifier::external_body]
pub(crate) fn random_ratio(numerator: u32, denominator: u32) -> (b: bool)
    requires
        0 < denominator,
        numerator <= denominator,
    ensures
        numerator == 0 ==> !b,
        numerator == denominator ==> b,
{
    rand::random_ratio(numerator, denominator)
}

/// Relies on `rand::seq::SliceRandom::shuffle`: a permutation of the items in place.
#[verifier::external_body]
pub(crate) fn shuffle(items: &mut Vec<PowerUp>)
    ensures
        final(items)@.to_multiset() == old(items)@.to_multiset(),
        final(items)@.len() == old(items)@.len(),
{
    rand::seq::SliceRandom::shuffle(items.as_mut_slice(), &mut rand::rng())
}

} // verus!
