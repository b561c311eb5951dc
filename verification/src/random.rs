//! The random draws of the game, made by the `rand` crate. What this file
//! states of `rand` is believed, not proved.

use vstd::prelude::*;
use rand::distributions::{Bernoulli, BernoulliError, Distribution};
use rand::rngs::ThreadRng;
use rand::seq::SliceRandom;

verus! {

/// `rand::rngs::ThreadRng`, the generator of the calling thread.
#[verifier::external_type_specification]
#[verifier::external_body]
pub struct ExThreadRng(rand::rngs::ThreadRng);

/// `rand::distributions::Bernoulli`, a coin that shows heads with a fixed
/// probability.
#[verifier::external_type_specification]
#[verifier::external_body]
pub struct ExBernoulli(rand::distributions::Bernoulli);

/// `rand::distributions::BernoulliError`, the refusal of a probability
/// outside [0, 1].
#[verifier::external_type_specification]
#[verifier::external_body]
pub struct ExBernoulliError(rand::distributions::BernoulliError);

/// `rand::thread_rng` hands out the calling thread's generator. Nothing is
/// claimed of the generator. The call fails only where the operating system
/// cannot seed it.
pub assume_specification[ rand::thread_rng ]() -> (rng: ThreadRng);

/// `Bernoulli::from_ratio` makes the coin that shows heads `numerator` times
/// in `denominator`. It refuses exactly when `numerator` exceeds
/// `denominator` or `denominator` is 0.
pub assume_specification[ Bernoulli::from_ratio ](
    numerator: u32,
    denominator: u32,
) -> (coin: Result<Bernoulli, BernoulliError>)
    ensures
        coin is Ok <==> (numerator <= denominator && denominator != 0);

/// `Distribution::sample` on a `Bernoulli` throws the coin once. The outcome
/// is random: nothing is claimed of it.
#[verifier::external_body]
pub(crate) fn throw_coin(coin: &Bernoulli, rng: &mut ThreadRng) -> (heads: bool) {
    coin.sample(rng)
}

/// `SliceRandom::choose` picks one of the listed cells at random. It gives
/// `None` exactly when the list is empty, and otherwise a cell of the list.
#[verifier::external_body]
pub(crate) fn choose_cell(
    cells: &Vec<(usize, usize)>,
    rng: &mut ThreadRng,
) -> (picked: Option<(usize, usize)>)
    ensures
        picked is None <==> cells@.len() == 0,
        picked matches Some(cell) ==> cells@.contains(cell),
{
    cells.choose(rng).copied()
}

} // verus!
