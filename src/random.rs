//! The random draws the engine makes, from a seedable generator owned by
//! the caller.
use vstd::prelude::*;
use rand::rngs::StdRng;
use rand::seq::SliceRandom;
use rand::Rng;

verus! {

#[verifier::external_type_specification]
#[verifier::external_body]
pub struct ExStdRng(StdRng);

/// Relies on rand's `Rng::gen_range`: a value drawn from `0..bound`, which
/// is not empty.
#[verifier::external_body]
pub(crate) fn random_below(rng: &mut StdRng, bound: usize) -> (r: usize)
    requires
        bound > 0,
    ensures
        r < bound,
{
    rng.gen_range(0..bound)
}

/// Relies on rand's `SliceRandom::choose`: one element of the non-empty
/// slice, so never `None`.
#[verifier::external_body]
pub(crate) fn choose_one(items: &Vec<usize>, rng: &mut StdRng) -> (r: usize)
    requires
        items@.len() > 0,
    ensures
        items@.contains(r),
{
    *items.as_slice().choose(rng).unwrap()
}

} // verus!
