//! A single candidate solution and its payoff.
use vstd::prelude::*;

use crate::random::random_below;

verus! {

/// The payoff scale `K`: an individual's price falls to zero at this output.
pub const PAYOFF_SCALE: u64 = 20000;

/// Numerator of the competition sensitivity `c = 13/25 = 0.52`.
pub const COMPETITION_NUM: u64 = 13;

/// Denominator of the competition sensitivity. Fitness is kept in units of
/// `1 / COMPETITION_DEN`, which makes it an exact integer.
pub const COMPETITION_DEN: u64 = 25;

/// The payoff of an individual of output `value` in a population of total
/// output `aggregate`, in units of `1 / COMPETITION_DEN`:
/// `((K - value) - c * (aggregate - value)) * value`, floored at zero, and
/// zero when the aggregate is below the individual's own output.
pub open spec fn fitness_spec(value: int, aggregate: int) -> int {
    if aggregate < value {
        0
    } else {
        let raw = (COMPETITION_DEN * (PAYOFF_SCALE - value) - COMPETITION_NUM * (aggregate - value))
            * value;
        if raw > 0 {
            raw
        } else {
            0
        }
    }
}

/// Fitness is never negative, and stays below `K^2` (in units of
/// `1 / COMPETITION_DEN`), so it fits in 64 bits.
pub proof fn lemma_fitness_range(value: int, aggregate: int)
    requires
        value >= 0,
    ensures
        0 <= fitness_spec(value, aggregate),
        fitness_spec(value, aggregate) <= COMPETITION_DEN * PAYOFF_SCALE * PAYOFF_SCALE,
{
    if aggregate >= value {
        let a = COMPETITION_DEN * (PAYOFF_SCALE - value);
        let b = COMPETITION_NUM * (aggregate - value);
        let raw = (a - b) * value;
        if raw > 0 {
            assert(a - b > 0) by (nonlinear_arith)
                requires
                    raw == (a - b) * value,
                    raw > 0,
                    value >= 0,
            ;
            assert(raw <= COMPETITION_DEN * PAYOFF_SCALE * PAYOFF_SCALE) by (nonlinear_arith)
                requires
                    raw == (a - b) * value,
                    a == 25 * (20000 - value),
                    b >= 0,
                    a - b > 0,
                    value >= 0,
            ;
        }
    }
}

/// One candidate solution: its encoded value and its cached payoff.
#[derive(Debug, Clone, Copy, PartialEq, Eq, Structural)]
pub struct Chromosome {
    /// The encoded candidate solution.
    pub data: u64,
    /// The payoff last computed for `data`, in units of `1 / COMPETITION_DEN`.
    pub fitness: u64,
}

impl Chromosome {
    /// A chromosome whose value is drawn uniformly from `0..bound`, with no
    /// payoff computed yet.
    pub fn new(bound: u64) -> (r: Chromosome)
        requires
            bound > 0,
        ensures
            r.data < bound,
            r.fitness == 0,
    {
        let data = random_below(bound as u128) as u64;
        Chromosome { data, fitness: 0 }
    }

    /// The payoff of this chromosome in a population whose values sum to
    /// `data_sum`.
    pub fn calculate_fitness(&self, data_sum: u128) -> (r: u64)
        ensures
            r == fitness_spec(self.data as int, data_sum as int),
    {
        proof {
            lemma_fitness_range(self.data as int, data_sum as int);
        }
        let v = self.data;
        if data_sum < v as u128 || v >= PAYOFF_SCALE {
            proof {
                if data_sum >= v as u128 {
                    let a = COMPETITION_DEN * (PAYOFF_SCALE - v);
                    let b = COMPETITION_NUM * (data_sum - v);
                    assert((a - b) * v <= 0) by (nonlinear_arith)
                        requires
                            a <= 0,
                            b >= 0,
                            v >= 0,
                    ;
                }
            }
            return 0;
        }
        let diff: u128 = data_sum - v as u128;
        let own: u128 = (COMPETITION_DEN as u128) * ((PAYOFF_SCALE - v) as u128);
        if diff >= own {
            proof {
                let b = COMPETITION_NUM * diff;
                assert((own - b) * v <= 0) by (nonlinear_arith)
                    requires
                        b >= own,
                        v >= 0,
                ;
            }
            return 0;
        }
        let rival: u128 = (COMPETITION_NUM as u128) * diff;
        if rival >= own {
            proof {
                assert((own - rival) * v <= 0) by (nonlinear_arith)
                    requires
                        rival >= own,
                        v >= 0,
                ;
            }
            return 0;
        }
        let margin: u128 = own - rival;
        assert(margin * (v as u128) <= 500000 * 20000) by (nonlinear_arith)
            requires
                margin <= 500000,
                v < 20000,
        ;
        let raw: u128 = margin * (v as u128);
        raw as u64
    }
}

} // verus!
