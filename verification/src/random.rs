//! The random source of the solver: a generator that a seed starts, and a
//! draw from a list.

use vstd::prelude::*;
use rand::rngs::StdRng;
use rand::seq::SliceRandom;
use rand::SeedableRng;

verus! {

/// `rand::rngs::StdRng`, the generator that the solver draws from. What it
/// holds is not modelled.
#[verifier::external_type_specification]
#[verifier::external_body]
pub struct ExStdRng(StdRng);

/// Starts a generator from a seed, with `StdRng::seed_from_u64`. Nothing is
/// claimed of the generator.
#[verifier::external_body]
pub(crate) fn seeded_rng(seed: u64) -> StdRng {
    StdRng::seed_from_u64(seed)
}

/// Draws one item of a list, with `SliceRandom::choose`: `None` if the list
/// is empty, else some item of the list. Which item is not claimed.
#[verifier::external_body]
pub(crate) fn choose_from<T: Copy>(rng: &mut StdRng, items: &Vec<T>) -> (chosen: Option<T>)
    ensures
        chosen is None <==> items@.len() == 0,
        chosen is Some ==> items@.contains(chosen->Some_0),
{
    items.choose(rng).copied()
}

} // verus!
