//! The evolution engine: a population of chromosomes and the generational
//! loop of evaluation, selection, pairing, crossover and mutation.
use vstd::prelude::*;

use vstd::arithmetic::power2::pow2;

use crate::bits::{
    exchange_low, exchange_low_spec, fits, flip_bit, flip_spec, lemma_exchange_extremes,
    lemma_fits_below_pow2, lemma_flip_changes_one_bit, one_flip_apart, changed_in_one_bit,
};
use crate::chromosome::{fitness_spec, Chromosome};
use crate::random::{random_below, random_index, trial, PROBABILITY_SCALE};
use crate::selection::{
    lemma_prefix_sum_monotone, prefix_sum, select_index, total_weight, weight_total,
};

verus! {

/// Initial values are drawn below this bound (or below `2^L` when that is smaller).
pub const INITIAL_BOUND: u64 = 1023;

/// Why a parameter set was refused at construction.
#[derive(Debug, Clone, Copy, PartialEq, Eq, Structural)]
pub enum ConfigError {
    /// A probability is above one (more than `PROBABILITY_SCALE` millionths).
    ProbabilityAboveOne,
    /// The chromosome width is zero or above 64 bits.
    WidthOutOfRange,
    /// The population is empty.
    EmptyPopulation,
    /// The exchanged low-order segment is wider than the chromosome.
    SegmentTooWide,
}

/// The values of a population, in order.
pub open spec fn values(s: Seq<Chromosome>) -> Seq<u64> {
    s.map_values(|c: Chromosome| c.data)
}

/// The payoffs of a population, in order.
pub open spec fn fitnesses(s: Seq<Chromosome>) -> Seq<u64> {
    s.map_values(|c: Chromosome| c.fitness)
}

/// Every value of the population fits in `width` bits.
pub open spec fn all_fit(s: Seq<Chromosome>, width: u64) -> bool {
    forall|i: int| 0 <= i < s.len() ==> fits(#[trigger] s[i].data, width)
}

/// The parameters accepted at construction.
pub open spec fn valid_config(p_cross: u32, p_mut: u32, width: u8, n: usize, z: u8) -> bool {
    &&& p_cross <= PROBABILITY_SCALE
    &&& p_mut <= PROBABILITY_SCALE
    &&& 1 <= width <= 64
    &&& n > 0
    &&& z <= width
}

/// The error construction reports for a parameter set, checked in this order.
pub open spec fn config_error(p_cross: u32, p_mut: u32, width: u8, n: usize, z: u8) -> ConfigError {
    if p_cross > PROBABILITY_SCALE || p_mut > PROBABILITY_SCALE {
        ConfigError::ProbabilityAboveOne
    } else if width < 1 || width > 64 {
        ConfigError::WidthOutOfRange
    } else if n == 0 {
        ConfigError::EmptyPopulation
    } else {
        ConfigError::SegmentTooWide
    }
}

/// The sum of the squares of the first `k` values.
pub open spec fn square_sum(w: Seq<u64>, k: int) -> int
    decreases k,
{
    if k <= 0 {
        0
    } else {
        square_sum(w, k - 1) + w[k - 1] * w[k - 1]
    }
}

/// `2^128`, the weight of the high word of a square sum.
pub open spec fn word_base() -> int {
    u128::MAX + 1
}

/// Summary of one generation, taken after its payoffs were computed and
/// before selection: the aggregate value and the exact sum of squared
/// values, split in two words, from which the variance follows as
/// `squares / n - (aggregate / n)^2`.
#[derive(Debug, Clone, Copy, PartialEq, Eq, Structural)]
pub struct GenerationStats {
    /// The sum of all values.
    pub aggregate: u128,
    /// The high word of the sum of squared values.
    pub squares_high: u128,
    /// The low word of the sum of squared values.
    pub squares_low: u128,
}

impl GenerationStats {
    /// The sum of squared values that the two words hold.
    pub open spec fn squares(&self) -> int {
        self.squares_high * word_base() + self.squares_low
    }
}

/// The sum of the values of a population; it always fits in 128 bits.
pub fn value_sum(population: &Vec<Chromosome>) -> (r: u128)
    ensures
        r == total_weight(values(population@)),
{
    let ghost w = values(population@);
    let mut sum: u128 = 0;
    let mut i: usize = 0;
    while i < population.len()
        invariant
            w == values(population@),
            i <= population.len(),
            sum == prefix_sum(w, i as int),
        decreases population.len() - i,
    {
        proof {
            lemma_prefix_sum_monotone(w, i as int + 1, i as int + 1);
            assert((i as int + 1) * u64::MAX <= 0x1_0000_0000_0000_0000 * u64::MAX) by (
            nonlinear_arith)
                requires
                    i < usize::MAX,
            ;
        }
        sum = sum + population[i].data as u128;
        i = i + 1;
    }
    sum
}

/// Two engines with the same fixed parameters.
pub open spec fn same_params(a: Run, b: Run) -> bool {
    &&& a.p_cross == b.p_cross
    &&& a.p_mut == b.p_mut
    &&& a.width == b.width
    &&& a.n == b.n
    &&& a.z == b.z
}

/// `c` is a member of `population`, and one of positive weight whenever the
/// weights are not all zero.
pub open spec fn drawn_from(c: Chromosome, population: Seq<Chromosome>, weights: Seq<u64>) -> bool {
    exists|j: int|
        0 <= j < population.len() && #[trigger] population[j] == c && (total_weight(weights) > 0
            ==> weights[j] > 0)
}

/// `o` lists each index below `n` exactly once.
pub open spec fn is_permutation(o: Seq<usize>, n: int) -> bool {
    &&& o.len() == n
    &&& forall|i: int| 0 <= i < n ==> #[trigger] o[i] < n
    &&& forall|i: int, j: int| 0 <= i < j < n ==> o[i] != o[j]
}

/// Offspring `c`, `d` of parents `a`, `b` under crossover probability
/// `p_cross`: either clones of the parents (never when `p_cross` is one), or
/// the parents with their lowest `z` bits exchanged (never when `p_cross` is
/// zero).
pub open spec fn crossed_pair(
    a: Chromosome,
    b: Chromosome,
    c: Chromosome,
    d: Chromosome,
    z: u64,
    p_cross: u32,
) -> bool {
    ||| p_cross < PROBABILITY_SCALE && c == a && d == b
    ||| p_cross > 0 && c == Chromosome {
        data: exchange_low_spec(a.data, b.data, z),
        fitness: a.fitness,
    } && d == Chromosome { data: exchange_low_spec(b.data, a.data, z), fitness: b.fitness }
}

/// Pair `k` of the new population (slots `2k`, `2k + 1`) descends from the
/// parents at positions `2k`, `2k + 1` of the pairing order.
pub open spec fn pair_descends(
    old: Seq<Chromosome>,
    new: Seq<Chromosome>,
    o: Seq<usize>,
    k: int,
    z: u64,
    p_cross: u32,
) -> bool {
    crossed_pair(old[o[2 * k] as int], old[o[2 * k + 1] as int], new[2 * k], new[2 * k + 1], z, p_cross)
}

/// `new` is the crossover of `old` paired in the order `o`: consecutive
/// entries of `o` form the pairs, and for an odd size the last one is
/// carried over unchanged.
pub open spec fn recombined(
    old: Seq<Chromosome>,
    new: Seq<Chromosome>,
    o: Seq<usize>,
    z: u64,
    p_cross: u32,
) -> bool {
    &&& is_permutation(o, old.len() as int)
    &&& new.len() == old.len()
    &&& forall|k: int| 0 <= k < old.len() / 2 ==> #[trigger] pair_descends(old, new, o, k, z, p_cross)
    &&& old.len() % 2 == 1 ==> new[old.len() - 1] == old[o[old.len() - 1] as int]
}

/// `new` is `old` under mutation probability `p_mut`: each member's value is
/// either kept or changed in one bit below `width`; every value changes when
/// `p_mut` is one, none when it is zero.
pub open spec fn mutated(
    old: Seq<Chromosome>,
    new: Seq<Chromosome>,
    width: u64,
    p_mut: u32,
) -> bool {
    &&& new.len() == old.len()
    &&& forall|i: int|
        0 <= i < old.len() ==> {
            &&& (#[trigger] new[i]).fitness == old[i].fitness
            &&& (p_mut < PROBABILITY_SCALE && new[i].data == old[i].data) || one_flip_apart(
                old[i].data,
                new[i].data,
                width,
            )
            &&& p_mut == 0 ==> new[i].data == old[i].data
        }
}

/// One step of the shuffle: exchanges the entries at `last` and `j`, which
/// keeps a permutation a permutation.
pub fn swap_entries(order: &mut Vec<usize>, last: usize, j: usize)
    requires
        last < old(order).len(),
        j < old(order).len(),
    ensures
        final(order)@ == old(order)@.update(last as int, old(order)@[j as int]).update(
            j as int,
            old(order)@[last as int],
        ),
        is_permutation(old(order)@, old(order).len() as int) ==> is_permutation(
            final(order)@,
            old(order).len() as int,
        ),
{
    let a = order[last];
    let b = order[j];
    order[last] = b;
    order[j] = a;
}

/// A random order of the indices `0..n` (Fisher-Yates shuffle).
pub fn pairing_order(n: usize) -> (r: Vec<usize>)
    ensures
        is_permutation(r@, n as int),
{
    let mut o: Vec<usize> = Vec::new();
    let mut i: usize = 0;
    while i < n
        invariant
            i <= n,
            o.len() == i,
            forall|j: int| 0 <= j < i ==> o@[j] == j,
        decreases n - i,
    {
        o.push(i);
        i = i + 1;
    }
    let mut k: usize = n;
    while k > 1
        invariant
            k <= n,
            is_permutation(o@, n as int),
        decreases k,
    {
        let j = random_index(k);
        swap_entries(&mut o, k - 1, j);
        k = k - 1;
    }
    o
}

/// The engine: fixed parameters and the current population.
#[derive(Debug)]
pub struct Run {
    /// Probability, in millionths, that a pair is crossed.
    pub p_cross: u32,
    /// Probability, in millionths, that an individual has one bit flipped.
    pub p_mut: u32,
    /// Chromosome width `L` in bits.
    pub width: u8,
    /// Population size.
    pub n: usize,
    /// Width of the low-order segment that crossover exchanges.
    pub z: u8,
    /// Number of generations run so far (saturating).
    pub period: u64,
    /// The current population.
    pub population: Vec<Chromosome>,
    /// Sum of the population's payoffs at the last evaluation.
    pub total_fitness: u128,
    /// Sum of the population's values at the last evaluation.
    pub data_sum: u128,
}

impl Run {
    /// The engine's invariant: the parameters are valid, the population has
    /// exactly `n` members and every value fits in the chromosome width.
    pub open spec fn wf(&self) -> bool {
        &&& valid_config(self.p_cross, self.p_mut, self.width, self.n, self.z)
        &&& self.population.len() == self.n
        &&& all_fit(self.population@, self.width as u64)
    }

    /// An engine with the given parameters and a population of `n` random
    /// chromosomes, each drawn below `INITIAL_BOUND` and below `2^L`.
    /// Probabilities are in millionths.
    #[allow(non_snake_case)]
    pub fn new(p_cross: u32, p_mut: u32, L: u8, n: usize, z: u8) -> (r: Result<Run, ConfigError>)
        ensures
            r is Ok <==> valid_config(p_cross, p_mut, L, n, z),
            r is Err ==> r->Err_0 == config_error(p_cross, p_mut, L, n, z),
            r matches Ok(run) ==> {
                &&& run.wf()
                &&& run.p_cross == p_cross && run.p_mut == p_mut
                &&& run.width == L && run.n == n && run.z == z
                &&& run.period == 0 && run.total_fitness == 0 && run.data_sum == 0
                &&& forall|i: int|
                    0 <= i < n ==> (#[trigger] run.population@[i]).data < INITIAL_BOUND
                        && run.population@[i].fitness == 0
            },
    {
        if p_cross > PROBABILITY_SCALE || p_mut > PROBABILITY_SCALE {
            return Err(ConfigError::ProbabilityAboveOne);
        }
        if L < 1 || L > 64 {
            return Err(ConfigError::WidthOutOfRange);
        }
        if n == 0 {
            return Err(ConfigError::EmptyPopulation);
        }
        if z > L {
            return Err(ConfigError::SegmentTooWide);
        }
        let bound: u64 = if L >= 10 {
            INITIAL_BOUND
        } else {
            assert(1 <= 1u64 << (L as u64) <= 1023) by (bit_vector)
                requires
                    L < 10,
            ;
            1u64 << (L as u64)
        };
        let mut population: Vec<Chromosome> = Vec::new();
        let mut i: usize = 0;
        while i < n
            invariant
                i <= n,
                population.len() == i,
                1 <= L <= 64,
                1 <= bound <= INITIAL_BOUND,
                L >= 10 ==> bound == INITIAL_BOUND,
                L < 10 ==> bound == 1u64 << (L as u64),
                forall|j: int|
                    0 <= j < i ==> (#[trigger] population@[j]).data < bound
                        && population@[j].fitness == 0 && fits(population@[j].data, L as u64),
            decreases n - i,
        {
            let c = Chromosome::new(bound);
            proof {
                let w = L as u64;
                let d = c.data;
                if L >= 64 {
                } else if L >= 10 {
                    assert(w >= 10 && w < 64 && d < 1023 ==> d <= ((1u64 << w) - 1) as u64)
                        by (bit_vector);
                } else {
                    assert(w < 10 && d < (1u64 << w) ==> d <= ((1u64 << w) - 1) as u64)
                        by (bit_vector);
                }
            }
            population.push(c);
            i = i + 1;
        }
        Ok(
            Run {
                p_cross,
                p_mut,
                width: L,
                n,
                z,
                period: 0,
                population,
                total_fitness: 0,
                data_sum: 0,
            },
        )
    }

    /// Stores the sum of the population's values, the aggregate that every
    /// payoff of this generation is computed against.
    pub fn calculate_data_sum(&mut self)
        ensures
            final(self).data_sum == total_weight(values(old(self).population@)),
            final(self).population == old(self).population,
            final(self).total_fitness == old(self).total_fitness,
            final(self).period == old(self).period,
            same_params(*final(self), *old(self)),
    {
        self.data_sum = value_sum(&self.population);
    }

    /// Recomputes every payoff against the stored aggregate, and their total.
    pub fn calculate_iteration_fitness(&mut self)
        ensures
            final(self).population.len() == old(self).population.len(),
            values(final(self).population@) == values(old(self).population@),
            forall|i: int|
                0 <= i < final(self).population.len()
                    ==> (#[trigger] final(self).population@[i]).fitness == fitness_spec(
                    old(self).population@[i].data as int,
                    old(self).data_sum as int,
                ),
            final(self).total_fitness == total_weight(fitnesses(final(self).population@)),
            final(self).data_sum == old(self).data_sum,
            final(self).period == old(self).period,
            same_params(*final(self), *old(self)),
    {
        let ghost old_pop = self.population@;
        let mut total: u128 = 0;
        let mut i: usize = 0;
        while i < self.population.len()
            invariant
                self.population.len() == old_pop.len(),
                i <= old_pop.len(),
                self.data_sum == old(self).data_sum,
                self.period == old(self).period,
                same_params(*self, *old(self)),
                old_pop == old(self).population@,
                forall|j: int|
                    0 <= j < old_pop.len() ==> (#[trigger] self.population@[j]).data
                        == old_pop[j].data,
                forall|j: int|
                    0 <= j < i ==> (#[trigger] self.population@[j]).fitness == fitness_spec(
                        old_pop[j].data as int,
                        self.data_sum as int,
                    ),
                total == prefix_sum(fitnesses(self.population@), i as int),
            decreases old_pop.len() - i,
        {
            let mut c = self.population[i];
            let f = c.calculate_fitness(self.data_sum);
            c.fitness = f;
            let ghost before = fitnesses(self.population@);
            self.population[i] = c;
            proof {
                let after = fitnesses(self.population@);
                assert forall|k: int| 0 <= k <= i implies prefix_sum(after, k) == prefix_sum(
                    before,
                    k,
                ) by {
                    lemma_prefix_unchanged(before, after, i as int, k);
                }
                lemma_prefix_sum_monotone(after, i as int + 1, i as int + 1);
                assert((i as int + 1) * u64::MAX <= 0x1_0000_0000_0000_0000 * u64::MAX) by (
                nonlinear_arith)
                    requires
                        i < usize::MAX,
                ;
            }
            total = total + f as u128;
            i = i + 1;
        }
        proof {
            assert(values(self.population@) =~= values(old_pop));
        }
        self.total_fitness = total;
    }

    /// The statistics of the current population: its aggregate value and
    /// the exact sum of its squared values.
    pub fn iter_stats(&self) -> (r: GenerationStats)
        ensures
            r.aggregate == total_weight(values(self.population@)),
            r.squares() == square_sum(values(self.population@), self.population.len() as int),
            r.squares_high <= self.population.len(),
    {
        let ghost w = values(self.population@);
        let aggregate = value_sum(&self.population);
        let mut high: u128 = 0;
        let mut low: u128 = 0;
        let mut i: usize = 0;
        while i < self.population.len()
            invariant
                w == values(self.population@),
                i <= self.population.len(),
                high <= i,
                high * word_base() + low == square_sum(w, i as int),
            decreases self.population.len() - i,
        {
            let v = self.population[i].data as u128;
            assert(v * v <= u128::MAX) by (nonlinear_arith)
                requires
                    v <= u64::MAX,
            ;
            let sq: u128 = v * v;
            assert(w[i as int] == v);
            if sq <= u128::MAX - low {
                low = low + sq;
            } else {
                proof {
                    let h = high as int;
                    assert((h + 1) * word_base() == h * word_base() + word_base()) by (
                    nonlinear_arith);
                }
                low = sq - (u128::MAX - low) - 1;
                high = high + 1;
            }
            i = i + 1;
        }
        GenerationStats { aggregate, squares_high: high, squares_low: low }
    }
}

impl Run {
    /// One roulette-wheel draw: a member of the population, chosen with
    /// probability proportional to its weight, or uniformly when all weights
    /// are zero.
    pub fn select(&self, weights: &Vec<u64>) -> (r: Chromosome)
        requires
            self.wf(),
            weights.len() == self.population.len(),
        ensures
            drawn_from(r, self.population@, weights@),
    {
        let total = weight_total(weights);
        let j: usize;
        if total == 0 {
            j = random_index(self.population.len());
        } else {
            let draw = random_below(total);
            j = select_index(weights, draw);
            proof {
                assert(prefix_sum(weights@, j as int + 1) == prefix_sum(weights@, j as int)
                    + weights@[j as int]);
            }
        }
        let r = self.population[j];
        assert(self.population@[j as int] == r);
        r
    }

    /// Fitness-proportionate selection: replaces the population by `n`
    /// independent draws weighted by the current payoffs.
    pub fn recomb(&mut self)
        requires
            old(self).wf(),
        ensures
            final(self).wf(),
            same_params(*final(self), *old(self)),
            final(self).period == old(self).period,
            final(self).data_sum == old(self).data_sum,
            final(self).total_fitness == old(self).total_fitness,
            forall|i: int|
                0 <= i < final(self).population.len() ==> drawn_from(
                    #[trigger] final(self).population@[i],
                    old(self).population@,
                    fitnesses(old(self).population@),
                ),
    {
        let mut weights: Vec<u64> = Vec::new();
        let mut i: usize = 0;
        while i < self.population.len()
            invariant
                i <= self.population.len(),
                weights.len() == i,
                forall|j: int| 0 <= j < i ==> weights@[j] == #[trigger] self.population@[j].fitness,
            decreases self.population.len() - i,
        {
            weights.push(self.population[i].fitness);
            i = i + 1;
        }
        assert(weights@ =~= fitnesses(self.population@));
        let mut next_gen: Vec<Chromosome> = Vec::new();
        let mut k: usize = 0;
        while k < self.n
            invariant
                self.wf(),
                k <= self.n,
                next_gen.len() == k,
                weights@ == fitnesses(self.population@),
                forall|j: int|
                    0 <= j < k ==> drawn_from(
                        #[trigger] next_gen@[j],
                        self.population@,
                        weights@,
                    ),
            decreases self.n - k,
        {
            let c = self.select(&weights);
            next_gen.push(c);
            k = k + 1;
        }
        let ghost old_pop = self.population@;
        proof {
            assert forall|j: int| 0 <= j < next_gen.len() implies fits(
                #[trigger] next_gen@[j].data,
                self.width as u64,
            ) by {
                let c = next_gen@[j];
                assert(drawn_from(c, old_pop, weights@));
                let m = choose|m: int|
                    0 <= m < old_pop.len() && #[trigger] old_pop[m] == c && (total_weight(
                        weights@,
                    ) > 0 ==> weights@[m] > 0);
                assert(fits(old_pop[m].data, self.width as u64));
            }
        }
        self.population = next_gen;
    }

    /// Crossover of the population paired in the given order: consecutive
    /// entries of `order` form the pairs, each pair has its lowest `z` bits
    /// exchanged with probability `p_cross`, and for an odd size the last
    /// entry is carried over unchanged.
    pub fn cross_in_order(&mut self, order: &Vec<usize>)
        requires
            old(self).wf(),
            is_permutation(order@, old(self).n as int),
        ensures
            final(self).wf(),
            same_params(*final(self), *old(self)),
            final(self).period == old(self).period,
            final(self).data_sum == old(self).data_sum,
            final(self).total_fitness == old(self).total_fitness,
            recombined(
                old(self).population@,
                final(self).population@,
                order@,
                old(self).z as u64,
                old(self).p_cross,
            ),
    {
        let ghost old_pop = self.population@;
        let n = self.n;
        let z = self.z as u64;
        let width = self.width as u64;
        let p_cross = self.p_cross;
        let mut next_gen: Vec<Chromosome> = Vec::new();
        let mut k: usize = 0;
        while k < n / 2
            invariant
                self.wf(),
                self.population@ == old_pop,
                n == self.n,
                z == self.z,
                width == self.width,
                p_cross == self.p_cross,
                is_permutation(order@, n as int),
                k <= n / 2,
                next_gen.len() == 2 * k,
                all_fit(next_gen@, width),
                forall|m: int|
                    0 <= m < k ==> #[trigger] pair_descends(
                        old_pop,
                        next_gen@,
                        order@,
                        m,
                        z,
                        p_cross,
                    ),
            decreases n / 2 - k,
        {
            let a = self.population[order[2 * k]];
            let b = self.population[order[2 * k + 1]];
            let ghost before = next_gen@;
            if trial(self.p_cross) {
                let c = Chromosome { data: exchange_low(a.data, b.data, z, width), fitness: a.fitness };
                let d = Chromosome { data: exchange_low(b.data, a.data, z, width), fitness: b.fitness };
                next_gen.push(c);
                next_gen.push(d);
            } else {
                next_gen.push(a);
                next_gen.push(b);
            }
            proof {
                assert forall|m: int| 0 <= m <= k implies #[trigger] pair_descends(
                    old_pop,
                    next_gen@,
                    order@,
                    m,
                    z,
                    p_cross,
                ) by {
                    if m < k {
                        assert(pair_descends(old_pop, before, order@, m, z, p_cross));
                        assert(next_gen@[2 * m] == before[2 * m]);
                        assert(next_gen@[2 * m + 1] == before[2 * m + 1]);
                    }
                }
            }
            k = k + 1;
        }
        if n % 2 == 1 {
            let last = self.population[order[n - 1]];
            let ghost before = next_gen@;
            next_gen.push(last);
            proof {
                assert forall|m: int| 0 <= m < n / 2 implies #[trigger] pair_descends(
                    old_pop,
                    next_gen@,
                    order@,
                    m,
                    z,
                    p_cross,
                ) by {
                    assert(pair_descends(old_pop, before, order@, m, z, p_cross));
                    assert(next_gen@[2 * m] == before[2 * m]);
                    assert(next_gen@[2 * m + 1] == before[2 * m + 1]);
                }
            }
        }
        self.population = next_gen;
    }

    /// Pairs the population at random, without replacement, and crosses
    /// each pair as `cross_in_order` does.
    pub fn cross(&mut self)
        requires
            old(self).wf(),
        ensures
            final(self).wf(),
            same_params(*final(self), *old(self)),
            final(self).period == old(self).period,
            final(self).data_sum == old(self).data_sum,
            final(self).total_fitness == old(self).total_fitness,
            exists|o: Seq<usize>|
                #[trigger] recombined(
                    old(self).population@,
                    final(self).population@,
                    o,
                    old(self).z as u64,
                    old(self).p_cross,
                ),
    {
        let order = pairing_order(self.n);
        self.cross_in_order(&order);
    }

    /// Mutation: each member, with probability `p_mut`, has one bit chosen
    /// uniformly among the `L` bits of its value inverted.
    pub fn mutate(&mut self)
        requires
            old(self).wf(),
        ensures
            final(self).wf(),
            same_params(*final(self), *old(self)),
            final(self).period == old(self).period,
            final(self).data_sum == old(self).data_sum,
            final(self).total_fitness == old(self).total_fitness,
            mutated(
                old(self).population@,
                final(self).population@,
                old(self).width as u64,
                old(self).p_mut,
            ),
    {
        let ghost old_pop = self.population@;
        let width = self.width as u64;
        let mut i: usize = 0;
        while i < self.population.len()
            invariant
                self.wf(),
                same_params(*self, *old(self)),
                self.period == old(self).period,
                self.data_sum == old(self).data_sum,
                self.total_fitness == old(self).total_fitness,
                width == self.width,
                i <= self.population.len(),
                self.population.len() == old_pop.len(),
                old_pop == old(self).population@,
                forall|j: int| i <= j < old_pop.len() ==> #[trigger] self.population@[j] == old_pop[j],
                mutated(
                    old_pop.subrange(0, i as int),
                    self.population@.subrange(0, i as int),
                    width,
                    self.p_mut,
                ),
            decreases self.population.len() - i,
        {
            let mut c = self.population[i];
            let ghost before = self.population@;
            if trial(self.p_mut) {
                let b = random_below(width as u128) as u64;
                c.data = flip_bit(c.data, b, width);
                assert(one_flip_apart(old_pop[i as int].data, c.data, width));
            }
            self.population[i] = c;
            proof {
                let (o2, n2) = (old_pop.subrange(0, i + 1), self.population@.subrange(0, i + 1));
                assert forall|j: int| 0 <= j < i + 1 implies #[trigger] n2[j] == (if j < i {
                    before.subrange(0, i as int)[j]
                } else {
                    c
                }) by {}
                assert forall|j: int| 0 <= j < i + 1 implies fits(
                    #[trigger] self.population@[j].data,
                    width,
                ) by {}
                assert(mutated(o2, n2, width, self.p_mut));
            }
            i = i + 1;
        }
        assert(old_pop.subrange(0, old_pop.len() as int) =~= old_pop);
        assert(self.population@.subrange(0, old_pop.len() as int) =~= self.population@);
    }
}

/// A copy of a population, member for member.
pub fn copy_population(population: &Vec<Chromosome>) -> (r: Vec<Chromosome>)
    ensures
        r@ == population@,
{
    let mut r: Vec<Chromosome> = Vec::new();
    let mut i: usize = 0;
    while i < population.len()
        invariant
            i <= population.len(),
            r@ == population@.subrange(0, i as int),
        decreases population.len() - i,
    {
        r.push(population[i]);
        i = i + 1;
        assert(r@ =~= population@.subrange(0, i as int));
    }
    assert(r@ =~= population@);
    r
}

/// `a + b`, or the largest `u64` where that overflows.
pub open spec fn saturating_sum(a: u64, b: int) -> u64 {
    if a + b > u64::MAX {
        u64::MAX
    } else {
        (a + b) as u64
    }
}

/// `p` with every payoff computed against the sum of its values.
pub open spec fn evaluated(p: Seq<Chromosome>) -> Seq<Chromosome> {
    Seq::new(
        p.len(),
        |i: int|
            Chromosome {
                data: p[i].data,
                fitness: fitness_spec(p[i].data as int, total_weight(values(p))) as u64,
            },
    )
}

/// One generation of engine `e` takes population `p` to `q` and records
/// `rec`: `rec` holds the aggregate and square sum of `p`; `p` is evaluated;
/// `sel` is drawn member by member from it, weighted by payoff; `crossed` is
/// `sel` paired in some order and crossed; and `q` is `crossed` mutated.
pub open spec fn generation_step(
    p: Seq<Chromosome>,
    q: Seq<Chromosome>,
    rec: GenerationStats,
    e: Run,
) -> bool {
    &&& rec.aggregate == total_weight(values(p))
    &&& rec.squares() == square_sum(values(p), p.len() as int)
    &&& exists|sel: Seq<Chromosome>, crossed: Seq<Chromosome>| #[trigger] bred(p, sel, crossed, q, e)
}

/// The breeding phases of one generation of engine `e` on population `p`:
/// `sel` is drawn member by member from `p` evaluated, weighted by payoff;
/// `crossed` is `sel` paired in some order and crossed; `q` is `crossed`
/// mutated.
pub open spec fn bred(
    p: Seq<Chromosome>,
    sel: Seq<Chromosome>,
    crossed: Seq<Chromosome>,
    q: Seq<Chromosome>,
    e: Run,
) -> bool {
    &&& sel.len() == p.len()
    &&& forall|i: int|
        0 <= i < sel.len() ==> drawn_from(#[trigger] sel[i], evaluated(p), fitnesses(evaluated(p)))
    &&& exists|o: Seq<usize>| #[trigger] recombined(sel, crossed, o, e.z as u64, e.p_cross)
    &&& mutated(crossed, q, e.width as u64, e.p_mut)
}

impl Run {
    /// Runs `iterations` generations. Each one computes the aggregate, then
    /// every payoff against it, records the statistics of that population,
    /// then selects, crosses and mutates. Returns the final population and
    /// one statistics record per generation.
    pub fn run(&mut self, iterations: u32) -> (r: (Vec<Chromosome>, Vec<GenerationStats>))
        requires
            old(self).wf(),
        ensures
            final(self).wf(),
            same_params(*final(self), *old(self)),
            r.0@ == final(self).population@,
            r.0.len() == old(self).n,
            r.1.len() == iterations,
            iterations == 0 ==> final(self).population@ == old(self).population@,
            iterations > 0 ==> r.1@.last().aggregate == final(self).data_sum,
            final(self).period == saturating_sum(old(self).period, iterations as int),
            exists|pops: Seq<Seq<Chromosome>>|
                {
                    &&& pops.len() == iterations + 1
                    &&& pops[0] == old(self).population@
                    &&& pops[iterations as int] == final(self).population@
                    &&& forall|g: int|
                        #![trigger r.1@[g]]
                        0 <= g < iterations ==> generation_step(
                            pops[g],
                            pops[g + 1],
                            r.1@[g],
                            *old(self),
                        )
                },
    {
        let ghost mut pops: Seq<Seq<Chromosome>> = seq![self.population@];
        let mut stats: Vec<GenerationStats> = Vec::new();
        let mut g: u32 = 0;
        while g < iterations
            invariant
                self.wf(),
                same_params(*self, *old(self)),
                g <= iterations,
                stats.len() == g,
                g == 0 ==> self.population@ == old(self).population@,
                g > 0 ==> stats@.last().aggregate == self.data_sum,
                self.period == saturating_sum(old(self).period, g as int),
                pops.len() == g + 1,
                pops[0] == old(self).population@,
                pops[g as int] == self.population@,
                forall|h: int|
                    #![trigger stats@[h]]
                    0 <= h < g ==> generation_step(pops[h], pops[h + 1], stats@[h], *old(self)),
            decreases iterations - g,
        {
            let ghost p = self.population@;
            self.calculate_data_sum();
            self.calculate_iteration_fitness();
            proof {
                assert forall|i: int| 0 <= i < self.population.len() implies fits(
                    #[trigger] self.population@[i].data,
                    self.width as u64,
                ) by {
                    assert(values(self.population@)[i] == self.population@[i].data);
                }
            }
            proof {
                assert forall|i: int| 0 <= i < p.len() implies #[trigger] self.population@[i]
                    == evaluated(p)[i] by {
                    assert(values(self.population@)[i] == values(p)[i]);
                }
                assert(self.population@ =~= evaluated(p));
            }
            let snapshot = self.iter_stats();
            let ghost stats_before = stats@;
            stats.push(snapshot);
            self.recomb();
            let ghost sel = self.population@;
            self.cross();
            let ghost crossed = self.population@;
            self.mutate();
            proof {
                assert(values(evaluated(p)) =~= values(p));
                assert(bred(p, sel, crossed, self.population@, *old(self)));
                assert(generation_step(p, self.population@, snapshot, *old(self)));
                let pops_before = pops;
                pops = pops.push(self.population@);
                assert forall|h: int|
                    #![trigger stats@[h]]
                    0 <= h < g + 1 implies generation_step(pops[h], pops[h + 1], stats@[h], *old(self))
                by {
                    if h < g {
                        assert(generation_step(
                            pops_before[h],
                            pops_before[h + 1],
                            stats_before[h],
                            *old(self),
                        ));
                        assert(stats@[h] == stats_before[h]);
                    }
                }
            }
            self.period = self.period.saturating_add(1);
            g = g + 1;
        }
        (copy_population(&self.population), stats)
    }
}

/// A well-formed engine, such as `Run::new` returns, holds exactly `n`
/// chromosomes, each with a value below `2^L`.
pub proof fn lemma_population_shape(run: Run)
    requires
        run.wf(),
    ensures
        run.population.len() == run.n,
        forall|i: int|
            0 <= i < run.n ==> (#[trigger] run.population@[i]).data < pow2(run.width as nat),
{
    assert forall|i: int| 0 <= i < run.n implies (#[trigger] run.population@[i]).data < pow2(
        run.width as nat,
    ) by {
        lemma_fits_below_pow2(run.population@[i].data, run.width as u64);
    }
}

/// Crossover that exchanges no bits leaves every offspring equal in value to
/// its parent; crossover that always happens and exchanges all `L` bits
/// swaps the values of the two parents of each pair.
pub proof fn lemma_crossover_extremes(
    old: Seq<Chromosome>,
    new: Seq<Chromosome>,
    o: Seq<usize>,
    width: u64,
    z: u64,
    p_cross: u32,
)
    requires
        width <= 64,
        all_fit(old, width),
        recombined(old, new, o, z, p_cross),
    ensures
        z == 0 ==> forall|k: int|
            0 <= k < old.len() / 2 ==> (#[trigger] new[2 * k]).data == old[o[2 * k] as int].data
                && new[2 * k + 1].data == old[o[2 * k + 1] as int].data,
        z == width && p_cross == PROBABILITY_SCALE ==> forall|k: int|
            0 <= k < old.len() / 2 ==> (#[trigger] new[2 * k]).data == old[o[2 * k
                + 1] as int].data && new[2 * k + 1].data == old[o[2 * k] as int].data,
{
    assert forall|k: int| 0 <= k < old.len() / 2 implies {
        &&& z == 0 ==> (#[trigger] new[2 * k]).data == old[o[2 * k] as int].data && new[2 * k
            + 1].data == old[o[2 * k + 1] as int].data
        &&& z == width && p_cross == PROBABILITY_SCALE ==> new[2 * k].data == old[o[2 * k
            + 1] as int].data && new[2 * k + 1].data == old[o[2 * k] as int].data
    } by {
        assert(pair_descends(old, new, o, k, z, p_cross));
        let a = old[o[2 * k] as int];
        let b = old[o[2 * k + 1] as int];
        assert(fits(a.data, width));
        assert(fits(b.data, width));
        lemma_exchange_extremes(a.data, b.data, width);
        lemma_exchange_extremes(b.data, a.data, width);
    }
}

/// Mutation that always happens changes every value in exactly one bit
/// position, and that position lies below the width.
pub proof fn lemma_certain_mutation_flips_one_bit(
    old: Seq<Chromosome>,
    new: Seq<Chromosome>,
    width: u64,
)
    requires
        width <= 64,
        mutated(old, new, width, PROBABILITY_SCALE),
    ensures
        forall|i: int|
            0 <= i < old.len() ==> changed_in_one_bit(old[i].data, (#[trigger] new[i]).data, width),
{
    assert forall|i: int| 0 <= i < old.len() implies changed_in_one_bit(
        old[i].data,
        (#[trigger] new[i]).data,
        width,
    ) by {
        assert(one_flip_apart(old[i].data, new[i].data, width));
        let b = choose|b: u64| b < width && new[i].data == #[trigger] flip_spec(old[i].data, b);
        lemma_flip_changes_one_bit(old[i].data, b);
    }
}

/// Prefix sums before a changed position do not see the change.
proof fn lemma_prefix_unchanged(a: Seq<u64>, b: Seq<u64>, i: int, k: int)
    requires
        0 <= k <= i,
        i <= a.len(),
        i <= b.len(),
        forall|j: int| 0 <= j < i ==> a[j] == b[j],
    ensures
        prefix_sum(a, k) == prefix_sum(b, k),
    decreases k,
{
    if k > 0 {
        lemma_prefix_unchanged(a, b, i, k - 1);
    }
}

} // verus!
