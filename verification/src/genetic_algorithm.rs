//! The genetic algorithm engine.
//!
//! One generational step over a population of scored individuals: pick two
//! parents by the selection strategy, cross their genomes, mutate the child,
//! repeat until the next generation has the same size as the last. The
//! three strategies are independently swappable type parameters, each held
//! to a contract the engine's own guarantees rest on.

use vstd::prelude::*;
use crate::fx::{abs_int, fx_mul, fx_sat_add, lemma_sat_monotonic, lemma_tdiv_abs_bound, sat, tdiv,
    SCALE};
use crate::rng::{coin, gen_index, gen_range_i64, lemma_sum64_bound, new_weighted_index,
    sample_weighted, sum64, weights_of, SimRng};
use crate::SimError;

verus! {

/// A fixed-length ordered sequence of genes: the flat encoding of one
/// network's parameters, and the unit the genetic operators act on.
/// A gene is a fixed-point scalar (see [`crate::fx`]).
pub struct Chromosome {
    genes: Vec<i64>,
}

impl View for Chromosome {
    type V = Seq<i64>;

    closed spec fn view(&self) -> Seq<i64> {
        self.genes@
    }
}

impl Chromosome {
    /// Number of genes.
    pub fn len(&self) -> (r: usize)
        ensures
            r == self@.len(),
    {
        self.genes.len()
    }

    /// The gene at one position.
    pub fn gene(&self, i: usize) -> (r: i64)
        requires
            i < self@.len(),
        ensures
            r == self@[i as int],
    {
        self.genes[i]
    }

    /// Wrap a flat gene vector.
    pub fn from_genes(genes: Vec<i64>) -> (r: Chromosome)
        ensures
            r@ == genes@,
    {
        Chromosome { genes }
    }

    /// The genes as a flat vector, in encoding order.
    pub fn as_genes(&self) -> (r: &Vec<i64>)
        ensures
            r@ == self@,
    {
        &self.genes
    }

    /// Overwrite the gene at one position.
    pub fn set_gene(&mut self, i: usize, v: i64)
        requires
            i < old(self)@.len(),
        ensures
            final(self)@ == old(self)@.update(i as int, v),
    {
        self.genes.set(i, v);
    }
}

/// A scored member of a population: what the engine reads (a genome and a
/// non-negative fitness) and what it rebuilds from an evolved genome.
pub trait Individual: Sized {
    /// The genome this individual carries.
    spec fn spec_genes(&self) -> Seq<i64>;

    /// The fitness this individual has accumulated.
    spec fn spec_fitness(&self) -> u32;

    fn create(chromosome: Chromosome) -> (r: Self)
        ensures
            r.spec_genes() == chromosome@,
    ;

    fn fitness(&self) -> (r: u32)
        ensures
            r == self.spec_fitness(),
    ;

    fn chromosome(&self) -> (r: &Chromosome)
        ensures
            r@ == self.spec_genes(),
    ;
}

/// Picks one member of a scored population, by index.
pub trait SelectionAlgorithm {
    /// What this strategy guarantees of a pick beyond its range.
    spec fn select_ens(&self, fitnesses: Seq<u64>, idx: int) -> bool;

    fn select(&self, rng: &mut SimRng, fitnesses: &Vec<u64>) -> (idx: usize)
        requires
            fitnesses@.len() > 0,
            sum64(fitnesses@) <= u64::MAX,
        ensures
            idx < fitnesses@.len(),
            self.select_ens(fitnesses@, idx as int),
    ;
}

/// Fitness-proportionate ("roulette wheel") selection: an individual is
/// drawn with probability proportional to its fitness share. On the
/// degenerate all-zero-fitness population, where a proportionate draw is
/// undefined, the documented policy is a uniform fallback.
pub struct RouletteWheelSelection {}

impl SelectionAlgorithm for RouletteWheelSelection {
    /// Whenever any fitness is positive, the pick has positive fitness.
    open spec fn select_ens(&self, fitnesses: Seq<u64>, idx: int) -> bool {
        sum64(fitnesses) > 0 ==> fitnesses[idx] > 0
    }

    fn select(&self, rng: &mut SimRng, fitnesses: &Vec<u64>) -> (idx: usize) {
        match new_weighted_index(fitnesses) {
            Some(dist) => sample_weighted(rng, &dist),
            None => gen_index(rng, fitnesses.len()),
        }
    }
}

/// Combines two parent genomes of equal length into a child genome.
pub trait CrossoverAlgorithm {
    /// What this strategy guarantees of the child beyond its length.
    spec fn crossover_ens(&self, a: Seq<i64>, b: Seq<i64>, child: Seq<i64>) -> bool;

    fn crossover(&self, rng: &mut SimRng, parent_a: &Chromosome, parent_b: &Chromosome) -> (child:
        Chromosome)
        requires
            parent_a@.len() == parent_b@.len(),
        ensures
            child@.len() == parent_a@.len(),
            self.crossover_ens(parent_a@, parent_b@, child@),
    ;
}

/// Uniform crossover: each gene position independently takes the allele of
/// either parent with equal probability; no locus structure is preserved.
pub struct UniformCrossover;

impl CrossoverAlgorithm for UniformCrossover {
    /// Every gene of the child equals the corresponding gene of one parent.
    open spec fn crossover_ens(&self, a: Seq<i64>, b: Seq<i64>, child: Seq<i64>) -> bool {
        forall|i: int| 0 <= i < child.len() ==> child[i] == a[i] || child[i] == b[i]
    }

    fn crossover(&self, rng: &mut SimRng, parent_a: &Chromosome, parent_b: &Chromosome) -> (child:
        Chromosome) {
        let n = parent_a.len();
        let mut genes: Vec<i64> = Vec::new();
        let mut i: usize = 0;
        while i < n
            invariant
                n == parent_a@.len() == parent_b@.len(),
                i == genes@.len() <= n,
                forall|j: int|
                    0 <= j < i ==> genes@[j] == parent_a@[j] || genes@[j] == parent_b@[j],
            decreases n - i,
        {
            if coin(rng) {
                genes.push(parent_a.gene(i));
            } else {
                genes.push(parent_b.gene(i));
            }
            i = i + 1;
        }
        Chromosome::from_genes(genes)
    }
}

/// Perturbs a genome in place.
pub trait MutationAlgorithm {
    /// What this strategy guarantees of the new genes beyond the length.
    spec fn mutate_ens(&self, old_genes: Seq<i64>, new_genes: Seq<i64>) -> bool;

    fn mutate(&self, rng: &mut SimRng, chromosome: &mut Chromosome)
        ensures
            final(chromosome)@.len() == old(chromosome)@.len(),
            self.mutate_ens(old(chromosome)@, final(chromosome)@),
    ;
}

/// A bounded random walk per gene (kept under its traditional name): with
/// probability `chance`, a gene moves by `sign * coeff * u`, where the sign
/// is a fair coin and `u` is uniform over `[0, 1)` — not a true Gaussian.
/// `chance` is a fixed-point probability in `[0, 1]`; `coeff` is the
/// largest move a gene can make.
pub struct GaussianMutation {
    chance: i64,
    coeff: i64,
}

impl GaussianMutation {
    /// The per-gene mutation probability, in fixed point.
    pub closed spec fn spec_chance(&self) -> i64 {
        self.chance
    }

    /// The largest perturbation magnitude, in fixed point.
    pub closed spec fn spec_coeff(&self) -> i64 {
        self.coeff
    }

    /// Validates the configuration: the chance must be a probability and
    /// the coefficient a magnitude; anything else is a fatal
    /// `InvalidConfiguration`.
    pub fn new(chance: i64, coeff: i64) -> (r: Result<GaussianMutation, SimError>)
        ensures
            r matches Ok(m) ==> 0 <= chance <= SCALE && coeff >= 0 && m.spec_chance() == chance
                && m.spec_coeff() == coeff,
            r matches Err(e) ==> e == SimError::InvalidConfiguration && !(0 <= chance <= SCALE
                && coeff >= 0),
    {
        if 0 <= chance && chance <= SCALE && coeff >= 0 {
            Ok(GaussianMutation { chance, coeff })
        } else {
            Err(SimError::InvalidConfiguration)
        }
    }
}

impl MutationAlgorithm for GaussianMutation {
    /// Each gene either keeps its value or moves by at most `coeff`,
    /// saturating at the representable band; a zero (or lower) chance
    /// leaves the genome untouched.
    open spec fn mutate_ens(&self, old_genes: Seq<i64>, new_genes: Seq<i64>) -> bool {
        &&& forall|i: int|
            0 <= i < new_genes.len() ==> new_genes[i] == old_genes[i] || (sat(
                old_genes[i] - abs_int(self.spec_coeff() as int),
            ) <= new_genes[i] <= sat(old_genes[i] + abs_int(self.spec_coeff() as int)))
        &&& self.spec_chance() <= 0 ==> new_genes == old_genes
    }

    fn mutate(&self, rng: &mut SimRng, chromosome: &mut Chromosome) {
        let n = chromosome.len();
        let mut i: usize = 0;
        while i < n
            invariant
                n == chromosome@.len() == old(chromosome)@.len(),
                i <= n,
                forall|j: int|
                    0 <= j < i ==> chromosome@[j] == old(chromosome)@[j] || (sat(
                        old(chromosome)@[j] - abs_int(self.spec_coeff() as int),
                    ) <= chromosome@[j] <= sat(
                        old(chromosome)@[j] + abs_int(self.spec_coeff() as int),
                    )),
                forall|j: int| i <= j < n ==> chromosome@[j] == old(chromosome)@[j],
                self.spec_chance() <= 0 ==> chromosome@ == old(chromosome)@,
            decreases n - i,
        {
            let draw = gen_range_i64(rng, 0, SCALE);
            if draw < self.chance {
                let u = gen_range_i64(rng, 0, SCALE);
                let delta = fx_mul(self.coeff, u);
                let g = chromosome.gene(i);
                proof {
                    lemma_tdiv_abs_bound(self.coeff as int, u as int);
                    assert(abs_int(delta as int) <= abs_int(self.coeff as int));
                }
                let ng = if coin(rng) {
                    proof {
                        lemma_sat_monotonic(g + delta, g + abs_int(self.coeff as int));
                        lemma_sat_monotonic(g - abs_int(self.coeff as int), g + delta);
                    }
                    fx_sat_add(g, delta)
                } else {
                    proof {
                        lemma_sat_monotonic(g - delta, g + abs_int(self.coeff as int));
                        lemma_sat_monotonic(g - abs_int(self.coeff as int), g - delta);
                    }
                    fx_sat_add(g, -delta)
                };
                chromosome.set_gene(i, ng);
            }
            i = i + 1;
        }
    }
}

/// The fitness weights of a population, in population order.
pub open spec fn fitness_weights<A: Individual>(population: Seq<A>) -> Seq<u64> {
    population.map_values(|a: A| a.spec_fitness() as u64)
}

/// The engine: one generational step, with the three strategies injected at
/// construction and independently swappable.
pub struct GeneticAlgorithm<S: SelectionAlgorithm, C: CrossoverAlgorithm, M: MutationAlgorithm> {
    pub selection_method: S,
    pub crossover_method: C,
    pub mutation_method: M,
}

impl<S: SelectionAlgorithm, C: CrossoverAlgorithm, M: MutationAlgorithm> GeneticAlgorithm<
    S,
    C,
    M,
> {
    pub fn new(selection_method: S, crossover_method: C, mutation_method: M) -> (r:
        GeneticAlgorithm<S, C, M>)
        ensures
            r == (GeneticAlgorithm { selection_method, crossover_method, mutation_method }),
    {
        GeneticAlgorithm { selection_method, crossover_method, mutation_method }
    }

    /// Whether `child` can close one turn of the engine's loop over this
    /// population: two parents picked as the selection strategy promises,
    /// their genomes crossed as the crossover strategy promises, and the
    /// result mutated as the mutation strategy promises.
    pub open spec fn child_ens<A: Individual>(
        &self,
        population: Seq<A>,
        child: Seq<i64>,
    ) -> bool {
        exists|pa: int, pb: int, crossed: Seq<i64>|
            {
                &&& 0 <= pa < population.len()
                &&& 0 <= pb < population.len()
                &&& self.selection_method.select_ens(fitness_weights(population), pa)
                &&& self.selection_method.select_ens(fitness_weights(population), pb)
                &&& #[trigger] self.crossover_method.crossover_ens(
                    population[pa].spec_genes(),
                    population[pb].spec_genes(),
                    crossed,
                )
                &&& self.mutation_method.mutate_ens(crossed, child)
            }
    }

    /// One generation: returns exactly as many children as there are
    /// members, each child's genome of the members' common genome length,
    /// each built by select-twice, crossover, mutate, under the three
    /// strategies' own guarantees. The same member may parent a child
    /// twice; there is no elitism and no deduplication.
    pub fn evolve<A: Individual>(&self, rng: &mut SimRng, population: &Vec<A>) -> (r: Vec<A>)
        requires
            population@.len() <= u32::MAX,
            forall|i: int|
                0 <= i < population@.len() ==> (#[trigger] population@[i].spec_genes()).len()
                    == population@[0].spec_genes().len(),
        ensures
            r@.len() == population@.len(),
            forall|i: int|
                0 <= i < r@.len() ==> (#[trigger] r@[i].spec_genes()).len()
                    == population@[0].spec_genes().len(),
            forall|i: int|
                0 <= i < r@.len() ==> self.child_ens(population@, (#[trigger] r@[i]).spec_genes()),
    {
        let n = population.len();
        let mut fitnesses: Vec<u64> = Vec::new();
        let mut i: usize = 0;
        while i < n
            invariant
                n == population@.len(),
                i == fitnesses@.len() <= n,
                forall|j: int| 0 <= j < i ==> fitnesses@[j] <= u32::MAX,
                forall|j: int|
                    0 <= j < i ==> fitnesses@[j] == (#[trigger] population@[j]).spec_fitness(),
            decreases n - i,
        {
            fitnesses.push(population[i].fitness() as u64);
            i = i + 1;
        }
        proof {
            assert(fitnesses@ =~= fitness_weights(population@));
            lemma_sum64_bound(fitnesses@, u32::MAX as u64);
            vstd::arithmetic::mul::lemma_mul_inequality(
                fitnesses@.len() as int,
                u32::MAX as int,
                u32::MAX as int,
            );
        }
        let mut next: Vec<A> = Vec::new();
        let mut k: usize = 0;
        while k < n
            invariant
                n == population@.len() <= u32::MAX,
                forall|j: int|
                    0 <= j < n ==> (#[trigger] population@[j].spec_genes()).len()
                        == population@[0].spec_genes().len(),
                fitnesses@.len() == n,
                sum64(fitnesses@) <= u64::MAX,
                k == next@.len() <= n,
                fitnesses@ == fitness_weights(population@),
                forall|j: int|
                    0 <= j < k ==> (#[trigger] next@[j].spec_genes()).len()
                        == population@[0].spec_genes().len(),
                forall|j: int|
                    0 <= j < k ==> self.child_ens(population@, (#[trigger] next@[j]).spec_genes()),
            decreases n - k,
        {
            let pa = self.selection_method.select(rng, &fitnesses);
            let pb = self.selection_method.select(rng, &fitnesses);
            let parent_a: &A = &population[pa];
            let parent_b: &A = &population[pb];
            let mut child = self.crossover_method.crossover(
                rng,
                parent_a.chromosome(),
                parent_b.chromosome(),
            );
            let ghost crossed = child@;
            self.mutation_method.mutate(rng, &mut child);
            proof {
                assert(self.crossover_method.crossover_ens(
                    population@[pa as int].spec_genes(),
                    population@[pb as int].spec_genes(),
                    crossed,
                ));
                assert(self.child_ens(population@, child@));
            }
            next.push(A::create(child));
            k = k + 1;
        }
        next
    }
}

} // verus!
