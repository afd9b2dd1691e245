//! Fitness-proportionate (roulette-wheel) choice of an index.
use vstd::prelude::*;

verus! {

/// The sum of the first `k` weights.
pub open spec fn prefix_sum(w: Seq<u64>, k: int) -> int
    decreases k,
{
    if k <= 0 {
        0
    } else {
        prefix_sum(w, k - 1) + w[k - 1]
    }
}

/// The sum of all weights.
pub open spec fn total_weight(w: Seq<u64>) -> int {
    prefix_sum(w, w.len() as int)
}

/// Prefix sums never decrease, and never exceed `k` times the largest `u64`.
pub proof fn lemma_prefix_sum_monotone(w: Seq<u64>, j: int, k: int)
    requires
        0 <= j <= k <= w.len(),
    ensures
        0 <= prefix_sum(w, j) <= prefix_sum(w, k),
        prefix_sum(w, k) <= k * u64::MAX,
    decreases k,
{
    if k > 0 {
        if j < k {
            lemma_prefix_sum_monotone(w, j, k - 1);
        } else {
            lemma_prefix_sum_monotone(w, j - 1, k - 1);
        }
        assert(prefix_sum(w, k) <= k * u64::MAX) by (nonlinear_arith)
            requires
                prefix_sum(w, k) == prefix_sum(w, k - 1) + w[k - 1],
                prefix_sum(w, k - 1) <= (k - 1) * u64::MAX,
                w[k - 1] <= u64::MAX,
        ;
    }
}

/// The sum of a vector of weights; it always fits in 128 bits.
pub fn weight_total(weights: &Vec<u64>) -> (r: u128)
    ensures
        r == total_weight(weights@),
{
    let mut sum: u128 = 0;
    let mut i: usize = 0;
    while i < weights.len()
        invariant
            i <= weights.len(),
            sum == prefix_sum(weights@, i as int),
        decreases weights.len() - i,
    {
        proof {
            lemma_prefix_sum_monotone(weights@, i as int + 1, i as int + 1);
            assert((i as int + 1) * u64::MAX <= 0x1_0000_0000_0000_0000 * u64::MAX) by (
            nonlinear_arith)
                requires
                    i < usize::MAX,
            ;
        }
        sum = sum + weights[i] as u128;
        i = i + 1;
    }
    sum
}

/// The roulette wheel: the index whose slice of the cumulative weights holds
/// `draw`, that is the first index whose cumulative weight exceeds it. A draw
/// at or past the total lands on the last index.
pub fn select_index(weights: &Vec<u64>, draw: u128) -> (r: usize)
    requires
        weights.len() > 0,
    ensures
        r < weights.len(),
        draw < total_weight(weights@) ==> prefix_sum(weights@, r as int) <= draw < prefix_sum(
            weights@,
            r as int + 1,
        ),
        draw >= total_weight(weights@) ==> r == weights.len() - 1,
{
    let n = weights.len();
    let mut cumulative: u128 = 0;
    let mut i: usize = 0;
    while i < n
        invariant
            n == weights.len(),
            i <= n,
            cumulative == prefix_sum(weights@, i as int),
            draw >= cumulative,
        decreases n - i,
    {
        proof {
            lemma_prefix_sum_monotone(weights@, i as int, i as int + 1);
            assert((i as int + 1) * u64::MAX <= 0x1_0000_0000_0000_0000 * u64::MAX) by (
            nonlinear_arith)
                requires
                    i < n,
                    n <= usize::MAX,
            ;
        }
        cumulative = cumulative + weights[i] as u128;
        if draw < cumulative {
            proof {
                lemma_prefix_sum_monotone(weights@, i as int + 1, n as int);
            }
            return i;
        }
        i = i + 1;
    }
    n - 1
}

} // verus!
