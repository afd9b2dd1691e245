//! The random source that drives the engine's decisions.
use rand::Rng;
use vstd::prelude::*;

verus! {

/// Denominator of every probability the engine takes: a probability is
/// given as a count of millionths.
pub const PROBABILITY_SCALE: u32 = 1_000_000;

/// Relies on `rand::Rng::gen_range` over `rand::thread_rng()`: a draw from
/// the half-open range `0..bound`, which rand only refuses when the range
/// is empty.
#[verifier::external_body]
pub(crate) fn random_below(bound: u128) -> (r: u128)
    requires
        bound > 0,
    ensures
        r < bound,
{
    rand::thread_rng().gen_range(0..bound)
}

/// A uniform index in `0..bound`.
pub(crate) fn random_index(bound: usize) -> (r: usize)
    requires
        bound > 0,
    ensures
        r < bound,
{
    random_below(bound as u128) as usize
}

/// Whether a draw from `0..PROBABILITY_SCALE` counts as a success for
/// probability `p`: it does when it falls below `p`.
pub fn trial_succeeds(draw: u128, p: u32) -> (r: bool)
    ensures
        r == (draw < p),
        p == 0 ==> !r,
        p >= PROBABILITY_SCALE && draw < PROBABILITY_SCALE ==> r,
{
    draw < p as u128
}

/// A Bernoulli trial that succeeds with probability `p / PROBABILITY_SCALE`.
/// A probability of zero never succeeds, one of at least the scale always does.
pub(crate) fn trial(p: u32) -> (r: bool)
    ensures
        p == 0 ==> !r,
        p >= PROBABILITY_SCALE ==> r,
{
    let draw = random_below(PROBABILITY_SCALE as u128);
    trial_succeeds(draw, p)
}

} // verus!
