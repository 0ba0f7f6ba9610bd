//! The random source, and the two draws the library makes from it.

use rand::rngs::StdRng;
use rand::seq::SliceRandom;
use vstd::prelude::*;

verus! {

/// rand's seedable generator: a seed fixes every draw made from it.
#[verifier::external_type_specification]
#[verifier::external_body]
pub struct ExStdRng(StdRng);

/// Relies on rand's `SliceRandom::shuffle` (Fisher-Yates): it only swaps
/// elements, so the result is a reordering of the input.
#[verifier::external_body]
pub(crate) fn shuffle_names(v: &mut Vec<String>, rng: &mut StdRng)
    ensures
        final(v)@.len() == old(v)@.len(),
        final(v)@.to_multiset() == old(v)@.to_multiset(),
{
    v.shuffle(rng);
}

/// Relies on rand's `SliceRandom::choose`: `None` exactly when the slice is
/// empty, else one of its elements, drawn uniformly.
#[verifier::external_body]
pub(crate) fn choose_one(v: &Vec<usize>, rng: &mut StdRng) -> (r: Option<usize>)
    ensures
        r is None <==> v@.len() == 0,
        r matches Some(x) ==> v@.contains(x),
{
    v.choose(rng).copied()
}

} // verus!
