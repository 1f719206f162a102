//! The simulation world.
//!
//! A world owns a fixed set of agents and food items on a square torus.
//! Each tick every agent senses the nearest food, feeds the offset through
//! its network, turns by the first output, accelerates by the second
//! (clamped), and advances along its heading with wrap-around; food caught
//! within the capture radius is relocated at random and feeds the catcher's
//! fitness counter by one. At a generation boundary the scored genomes go
//! through the genetic algorithm engine and the world respawns from the
//! children.

use vstd::prelude::*;
use crate::fx::{abs_int, fx_sat_add, lemma_fx_mul_abs, fx_mul, sat, tdiv, LIMIT, SCALE};
use crate::genetic_algorithm::{Chromosome, GaussianMutation, GeneticAlgorithm, Individual,
    RouletteWheelSelection, UniformCrossover};
use crate::geom::{cos_fx, cos_fx_spec, dist2, dist2_spec, sin_fx, sin_fx_spec, tor_delta,
    tor_delta_spec, wrap1, wrap_add, wrap_angle, Point2, TAU_FX};
use crate::neural_network::{check_topology, genome_len, lemma_net_genes_len, net_eval, net_genes,
    net_topology, net_wf, to_ints, topology_valid, Network};
use crate::rng::{gen_range_i64, SimRng};
use crate::SimError;

verus! {

/// Slowest an agent moves, in fixed-point units per tick.
pub const SPEED_MIN: i64 = 1_000;

/// Fastest an agent moves.
pub const SPEED_MAX: i64 = 5_000;

/// Speed every agent starts a generation with.
pub const SPEED_INITIAL: i64 = 2_000;

/// Squared capture radius: food within this squared distance is eaten.
pub const FOOD_RADIUS_SQ: u128 = 100_000_000;

/// Width of the sensor vector an agent perceives.
pub const SENSOR_WIDTH: usize = 2;

/// Width of the motor vector an agent's network must produce.
pub const MOTOR_WIDTH: usize = 2;

/// Everything a run is configured with, supplied at construction.
pub struct Config {
    /// How many agents the world holds; constant across the run.
    pub n_animals: usize,
    /// How many food items the world holds; constant across the run.
    pub n_foods: usize,
    /// Side of the square torus, in fixed-point units.
    pub world_size: i64,
    /// Layer widths of every agent's network, input width first.
    pub topology: Vec<usize>,
    /// Per-gene mutation probability, fixed point in `[0, 1]`.
    pub mutation_chance: i64,
    /// Largest mutation step, in fixed point.
    pub mutation_coeff: i64,
}

/// A usable configuration: at least one agent and one food, a world large
/// enough to move in, a topology reading the sensors and driving the
/// motors, and a mutation setup in range.
pub open spec fn config_valid(c: Config) -> bool {
    &&& 0 < c.n_animals <= u32::MAX
    &&& 0 < c.n_foods
    &&& SPEED_MAX < c.world_size <= LIMIT
    &&& topology_valid(c.topology@)
    &&& c.topology@[0] == SENSOR_WIDTH
    &&& c.topology@.last() == MOTOR_WIDTH
    &&& 0 <= c.mutation_chance <= SCALE
    &&& 0 <= c.mutation_coeff
}

/// Whether a configuration is usable (see [`config_valid`]).
pub fn check_config(c: &Config) -> (r: bool)
    ensures
        r == config_valid(*c),
{
    c.n_animals > 0 && c.n_animals <= u32::MAX as usize && c.n_foods > 0 && c.world_size
        > SPEED_MAX && c.world_size <= LIMIT && check_topology(&c.topology) && c.topology[0]
        == SENSOR_WIDTH && c.topology[c.topology.len() - 1] == MOTOR_WIDTH && c.mutation_chance
        >= 0 && c.mutation_chance <= SCALE && c.mutation_coeff >= 0
}

/// An agent: a network-driven forager with a pose and a fitness counter.
pub struct Animal {
    position: Point2,
    rotation: i64,
    speed: i64,
    fitness: u32,
    network: Network,
}

/// A food item: a position only; eaten food is relocated, never destroyed.
pub struct Food {
    position: Point2,
}

impl Food {
    /// Where this food lies.
    pub closed spec fn spec_position(&self) -> Point2 {
        self.position
    }

    /// Where this food lies.
    pub fn position(&self) -> (r: Point2)
        ensures
            r == self.spec_position(),
    {
        self.position
    }

    /// A food at an independent uniformly-random in-bounds position.
    pub fn random(rng: &mut SimRng, world_size: i64) -> (r: Food)
        requires
            0 < world_size,
        ensures
            0 <= r.spec_position().x < world_size,
            0 <= r.spec_position().y < world_size,
    {
        Food {
            position: Point2 {
                x: gen_range_i64(rng, 0, world_size),
                y: gen_range_i64(rng, 0, world_size),
            },
        }
    }
}

impl Animal {
    /// The agent's position.
    pub closed spec fn spec_position(&self) -> Point2 {
        self.position
    }

    /// The agent's heading, a fixed-point angle in `[0, TAU_FX)`.
    pub closed spec fn spec_rotation(&self) -> i64 {
        self.rotation
    }

    /// The agent's current speed.
    pub closed spec fn spec_speed(&self) -> i64 {
        self.speed
    }

    /// How much food the agent has eaten this generation.
    pub closed spec fn spec_fitness(&self) -> u32 {
        self.fitness
    }

    /// The network steering the agent.
    pub closed spec fn spec_network(&self) -> Network {
        self.network
    }

    /// The agent's position.
    pub fn position(&self) -> (r: Point2)
        ensures
            r == self.spec_position(),
    {
        self.position
    }

    /// The agent's heading.
    pub fn rotation(&self) -> (r: i64)
        ensures
            r == self.spec_rotation(),
    {
        self.rotation
    }

    /// How much food the agent has eaten this generation.
    pub fn fitness(&self) -> (r: u32)
        ensures
            r == self.spec_fitness(),
    {
        self.fitness
    }

    /// The flat genome of the agent's network.
    pub fn chromosome(&self) -> (r: Chromosome)
        ensures
            r@ == net_genes(self.spec_network().layers@),
    {
        self.network.to_chromosome()
    }

    /// An agent with a given network and a fresh random pose: position and
    /// heading independent and uniform, speed initial, fitness zero.
    fn spawn(rng: &mut SimRng, c: &Config, network: Network) -> (r: Animal)
        requires
            config_valid(*c),
            net_wf(network),
            net_topology(network) == c.topology@.map_values(|w: usize| w as int),
        ensures
            animal_wf(r, *c),
            r.spec_fitness() == 0,
            r.spec_speed() == SPEED_INITIAL,
            r.spec_network() == network,
    {
        Animal {
            position: Point2 {
                x: gen_range_i64(rng, 0, c.world_size),
                y: gen_range_i64(rng, 0, c.world_size),
            },
            rotation: gen_range_i64(rng, 0, TAU_FX),
            speed: SPEED_INITIAL,
            fitness: 0,
            network,
        }
    }

    /// An agent with a fresh uniformly-random network and pose.
    pub fn random(rng: &mut SimRng, c: &Config) -> (r: Animal)
        requires
            config_valid(*c),
        ensures
            animal_wf(r, *c),
            r.spec_fitness() == 0,
            r.spec_speed() == SPEED_INITIAL,
    {
        let network = match Network::random(rng, &c.topology) {
            Ok(n) => n,
            Err(_) => unreached(),
        };
        Animal::spawn(rng, c, network)
    }
}

/// The shape every agent must keep: in-bounds position, in-range heading
/// and speed, and a well-formed network of the configured topology.
pub closed spec fn animal_wf(a: Animal, c: Config) -> bool {
    &&& 0 <= a.position.x < c.world_size
    &&& 0 <= a.position.y < c.world_size
    &&& 0 <= a.rotation < TAU_FX
    &&& SPEED_MIN <= a.speed <= SPEED_MAX
    &&& net_wf(a.network)
    &&& net_topology(a.network) == c.topology@.map_values(|w: usize| w as int)
}

/// Food stays in bounds.
pub closed spec fn food_wf(f: Food, c: Config) -> bool {
    &&& 0 <= f.spec_position().x < c.world_size
    &&& 0 <= f.spec_position().y < c.world_size
}

/// The world: the one mutable aggregate a run advances.
pub struct World {
    config: Config,
    animals: Vec<Animal>,
    foods: Vec<Food>,
}

/// The world's standing invariant: a valid configuration, the configured
/// counts, and every agent and food well formed.
pub closed spec fn world_wf(w: World) -> bool {
    &&& config_valid(w.config)
    &&& w.animals@.len() == w.config.n_animals
    &&& w.foods@.len() == w.config.n_foods
    &&& forall|i: int| 0 <= i < w.animals@.len() ==> animal_wf(#[trigger] w.animals@[i], w.config)
    &&& forall|i: int| 0 <= i < w.foods@.len() ==> food_wf(#[trigger] w.foods@[i], w.config)
}

impl World {
    /// The world's agents, in their fixed order.
    pub closed spec fn spec_animals(&self) -> Seq<Animal> {
        self.animals@
    }

    /// The world's food items.
    pub closed spec fn spec_foods(&self) -> Seq<Food> {
        self.foods@
    }

    /// The configuration the world was built with.
    pub closed spec fn spec_config(&self) -> Config {
        self.config
    }

    /// Read access to the agents, for rendering.
    pub fn animals(&self) -> (r: &Vec<Animal>)
        ensures
            r@ == self.spec_animals(),
    {
        &self.animals
    }

    /// Read access to the food items, for rendering.
    pub fn foods(&self) -> (r: &Vec<Food>)
        ensures
            r@ == self.spec_foods(),
    {
        &self.foods
    }

    /// A fresh world of random agents and foods for a configuration, or
    /// `InvalidConfiguration` exactly when the configuration is unusable
    /// (zero agents or zero foods included).
    pub fn random(config: Config, rng: &mut SimRng) -> (r: Result<World, SimError>)
        ensures
            r matches Ok(w) ==> {
                &&& config_valid(config)
                &&& world_wf(w)
                &&& w.spec_config() == config
                &&& w.spec_animals().len() == config.n_animals
                &&& w.spec_foods().len() == config.n_foods
                &&& forall|i: int|
                    0 <= i < w.spec_animals().len() ==> (#[trigger] w.spec_animals()[i]).spec_fitness()
                        == 0
                &&& forall|i: int|
                    0 <= i < w.spec_animals().len() ==> (#[trigger] w.spec_animals()[i]).spec_speed()
                        == SPEED_INITIAL
            },
            r matches Err(e) ==> e == SimError::InvalidConfiguration && !config_valid(config),
    {
        if !check_config(&config) {
            return Err(SimError::InvalidConfiguration);
        }
        let mut animals: Vec<Animal> = Vec::new();
        let mut i: usize = 0;
        while i < config.n_animals
            invariant
                config_valid(config),
                i == animals@.len() <= config.n_animals,
                forall|j: int| 0 <= j < i ==> animal_wf(#[trigger] animals@[j], config),
                forall|j: int| 0 <= j < i ==> (#[trigger] animals@[j]).spec_fitness() == 0,
                forall|j: int| 0 <= j < i ==> (#[trigger] animals@[j]).spec_speed() == SPEED_INITIAL,
            decreases config.n_animals - i,
        {
            animals.push(Animal::random(rng, &config));
            i = i + 1;
        }
        let mut foods: Vec<Food> = Vec::new();
        let mut k: usize = 0;
        while k < config.n_foods
            invariant
                config_valid(config),
                k == foods@.len() <= config.n_foods,
                forall|j: int| 0 <= j < k ==> food_wf(#[trigger] foods@[j], config),
            decreases config.n_foods - k,
        {
            foods.push(Food::random(rng, config.world_size));
            k = k + 1;
        }
        Ok(World { config, animals, foods })
    }
}

/// Squared toroidal distance between two points.
pub open spec fn sq_to(p: Point2, q: Point2, size: int) -> int {
    dist2_spec(
        tor_delta_spec(p.x as int, q.x as int, size),
        tor_delta_spec(p.y as int, q.y as int, size),
    )
}

/// `k` is the index perception picks: the first food no farther from `p`
/// than any other.
pub open spec fn first_nearest(foods: Seq<Food>, p: Point2, size: int, k: int) -> bool {
    &&& 0 <= k < foods.len()
    &&& forall|j: int|
        0 <= j < foods.len() ==> sq_to(p, foods[k].spec_position(), size) <= sq_to(
            p,
            (#[trigger] foods[j]).spec_position(),
            size,
        )
    &&& forall|j: int|
        0 <= j < k ==> sq_to(p, (#[trigger] foods[j]).spec_position(), size) > sq_to(
            p,
            foods[k].spec_position(),
            size,
        )
}

/// At most one index is the first nearest.
proof fn lemma_first_nearest_unique(foods: Seq<Food>, p: Point2, size: int, k1: int, k2: int)
    requires
        first_nearest(foods, p, size, k1),
        first_nearest(foods, p, size, k2),
    ensures
        k1 == k2,
{
    if k1 < k2 {
        assert(sq_to(p, foods[k1].spec_position(), size) > sq_to(
            p,
            foods[k2].spec_position(),
            size,
        ));
        assert(sq_to(p, foods[k1].spec_position(), size) <= sq_to(
            p,
            foods[k2].spec_position(),
            size,
        ));
    } else if k2 < k1 {
        assert(sq_to(p, foods[k2].spec_position(), size) > sq_to(
            p,
            foods[k1].spec_position(),
            size,
        ));
        assert(sq_to(p, foods[k2].spec_position(), size) <= sq_to(
            p,
            foods[k1].spec_position(),
            size,
        ));
    }
}

/// Index of the first food item no farther from `p` than any other.
fn nearest_food(foods: &Vec<Food>, p: Point2, size: i64) -> (k: usize)
    requires
        foods@.len() > 0,
        0 < size <= LIMIT,
        0 <= p.x < size,
        0 <= p.y < size,
        forall|j: int|
            0 <= j < foods@.len() ==> {
                &&& 0 <= (#[trigger] foods@[j]).spec_position().x < size
                &&& 0 <= foods@[j].spec_position().y < size
            },
    ensures
        first_nearest(foods@, p, size as int, k as int),
{
    let q0 = foods[0].position();
    let mut best: usize = 0;
    let mut best_d: u128 = dist2(tor_delta(p.x, q0.x, size), tor_delta(p.y, q0.y, size));
    let mut i: usize = 1;
    while i < foods.len()
        invariant
            foods@.len() > 0,
            0 < size <= LIMIT,
            0 <= p.x < size,
            0 <= p.y < size,
            forall|j: int|
                0 <= j < foods@.len() ==> {
                    &&& 0 <= (#[trigger] foods@[j]).spec_position().x < size
                    &&& 0 <= foods@[j].spec_position().y < size
                },
            1 <= i <= foods@.len(),
            best < i,
            best_d as int == sq_to(p, foods@[best as int].spec_position(), size as int),
            forall|j: int|
                0 <= j < i ==> best_d as int <= sq_to(
                    p,
                    (#[trigger] foods@[j]).spec_position(),
                    size as int,
                ),
            forall|j: int|
                0 <= j < best ==> sq_to(p, (#[trigger] foods@[j]).spec_position(), size as int)
                    > best_d as int,
        decreases foods@.len() - i,
    {
        let q = foods[i].position();
        let d = dist2(tor_delta(p.x, q.x, size), tor_delta(p.y, q.y, size));
        if d < best_d {
            best = i;
            best_d = d;
        }
        i = i + 1;
    }
    best
}

/// `j` is the agent the capture rule feeds: the first one within capture
/// range of the position.
pub open spec fn first_catcher(animals: Seq<Animal>, fp: Point2, size: int, j: int) -> bool {
    &&& 0 <= j < animals.len()
    &&& sq_to(animals[j].spec_position(), fp, size) < FOOD_RADIUS_SQ
    &&& forall|m: int|
        0 <= m < j ==> sq_to((#[trigger] animals[m]).spec_position(), fp, size) >= FOOD_RADIUS_SQ
}

/// At most one agent is the first catcher of a position.
proof fn lemma_first_catcher_unique(animals: Seq<Animal>, fp: Point2, size: int, j1: int, j2: int)
    requires
        first_catcher(animals, fp, size, j1),
        first_catcher(animals, fp, size, j2),
    ensures
        j1 == j2,
{
    if j1 < j2 {
        assert(sq_to(animals[j1].spec_position(), fp, size) >= FOOD_RADIUS_SQ);
    } else if j2 < j1 {
        assert(sq_to(animals[j2].spec_position(), fp, size) >= FOOD_RADIUS_SQ);
    }
}

/// Being the first catcher depends on the agents' positions alone.
proof fn lemma_first_catcher_same_positions(
    a1: Seq<Animal>,
    a2: Seq<Animal>,
    fp: Point2,
    size: int,
    j: int,
)
    requires
        a1.len() == a2.len(),
        forall|m: int| 0 <= m < a1.len() ==> (#[trigger] a1[m]).spec_position()
            == a2[m].spec_position(),
    ensures
        first_catcher(a1, fp, size, j) == first_catcher(a2, fp, size, j),
{
    if first_catcher(a1, fp, size, j) {
        assert forall|m: int| 0 <= m < j implies sq_to(
            (#[trigger] a2[m]).spec_position(),
            fp,
            size,
        ) >= FOOD_RADIUS_SQ by {
            assert(a1[m].spec_position() == a2[m].spec_position());
        }
        assert(a1[j].spec_position() == a2[j].spec_position());
    }
    if first_catcher(a2, fp, size, j) {
        assert forall|m: int| 0 <= m < j implies sq_to(
            (#[trigger] a1[m]).spec_position(),
            fp,
            size,
        ) >= FOOD_RADIUS_SQ by {
            assert(a1[m].spec_position() == a2[m].spec_position());
        }
        assert(a1[j].spec_position() == a2[j].spec_position());
    }
}

/// How many of the foods the agent at index `j` catches first.
pub open spec fn caught_count(animals: Seq<Animal>, foods: Seq<Food>, size: int, j: int) -> int
    decreases foods.len(),
{
    if foods.len() == 0 {
        0
    } else {
        caught_count(animals, foods.drop_last(), size, j) + if first_catcher(
            animals,
            foods.last().spec_position(),
            size,
            j,
        ) {
            1int
        } else {
            0int
        }
    }
}

/// The capture count, too, depends on the agents' positions alone.
proof fn lemma_caught_count_same_positions(
    a1: Seq<Animal>,
    a2: Seq<Animal>,
    foods: Seq<Food>,
    size: int,
    j: int,
)
    requires
        a1.len() == a2.len(),
        forall|m: int| 0 <= m < a1.len() ==> (#[trigger] a1[m]).spec_position()
            == a2[m].spec_position(),
    ensures
        caught_count(a1, foods, size, j) == caught_count(a2, foods, size, j),
    decreases foods.len(),
{
    if foods.len() > 0 {
        lemma_caught_count_same_positions(a1, a2, foods.drop_last(), size, j);
        lemma_first_catcher_same_positions(a1, a2, foods.last().spec_position(), size, j);
    }
}

/// A value clamped to what a fitness counter can hold.
pub open spec fn sat_u32(x: int) -> int {
    if x > u32::MAX as int {
        u32::MAX as int
    } else {
        x
    }
}

/// The first agent within capture range of a position, if any.
fn catcher_index(animals: &Vec<Animal>, fp: Point2, size: i64) -> (r: Option<usize>)
    requires
        0 < size <= LIMIT,
        0 <= fp.x < size,
        0 <= fp.y < size,
        forall|j: int|
            0 <= j < animals@.len() ==> {
                &&& 0 <= (#[trigger] animals@[j]).spec_position().x < size
                &&& 0 <= animals@[j].spec_position().y < size
            },
    ensures
        r matches Some(j) ==> first_catcher(animals@, fp, size as int, j as int),
        r is None ==> forall|j: int|
            0 <= j < animals@.len() ==> sq_to(
                (#[trigger] animals@[j]).spec_position(),
                fp,
                size as int,
            ) >= FOOD_RADIUS_SQ,
{
    let mut i: usize = 0;
    while i < animals.len()
        invariant
            0 < size <= LIMIT,
            0 <= fp.x < size,
            0 <= fp.y < size,
            forall|j: int|
                0 <= j < animals@.len() ==> {
                    &&& 0 <= (#[trigger] animals@[j]).spec_position().x < size
                    &&& 0 <= animals@[j].spec_position().y < size
                },
            i <= animals@.len(),
            forall|j: int|
                0 <= j < i ==> sq_to(
                    (#[trigger] animals@[j]).spec_position(),
                    fp,
                    size as int,
                ) >= FOOD_RADIUS_SQ,
        decreases animals@.len() - i,
    {
        let ap = animals[i].position();
        let d = dist2(tor_delta(ap.x, fp.x, size), tor_delta(ap.y, fp.y, size));
        if d < FOOD_RADIUS_SQ {
            return Some(i);
        }
        i = i + 1;
    }
    None
}

/// A scored population member handed to the engine at a generation
/// boundary: a genome and the fitness it earned.
pub struct ScoredIndividual {
    chromosome: Chromosome,
    fitness: u32,
}

impl ScoredIndividual {
    /// Pair a genome with the fitness it earned.
    pub fn new(chromosome: Chromosome, fitness: u32) -> (r: ScoredIndividual)
        ensures
            r.spec_genes() == chromosome@,
            r.spec_fitness() == fitness,
    {
        ScoredIndividual { chromosome, fitness }
    }
}

impl Individual for ScoredIndividual {
    closed spec fn spec_genes(&self) -> Seq<i64> {
        self.chromosome@
    }

    closed spec fn spec_fitness(&self) -> u32 {
        self.fitness
    }

    fn create(chromosome: Chromosome) -> (r: Self) {
        ScoredIndividual { chromosome, fitness: 0 }
    }

    fn fitness(&self) -> (r: u32) {
        self.fitness
    }

    fn chromosome(&self) -> (r: &Chromosome) {
        &self.chromosome
    }
}

/// What a generation boundary reports to the caller.
pub struct Statistics {
    /// How many agents the generation ran with.
    pub population: usize,
    /// Each agent's food-eaten count, in agent order.
    pub fitnesses: Vec<u32>,
}

/// The simulation: a world plus the genetic algorithm engine that evolves
/// it, advanced by an external driver through `tick` and
/// `step_generation`.
pub struct Simulation {
    world: World,
    ga: GeneticAlgorithm<RouletteWheelSelection, UniformCrossover, GaussianMutation>,
}

/// The simulation's standing invariant.
pub open spec fn sim_wf(s: Simulation) -> bool {
    world_wf(s.spec_world())
}

/// The sensor vector an agent perceives: the toroidal offset to the food
/// at index `k`.
pub open spec fn sensed(a: Animal, fp: Point2, size: int) -> Seq<int> {
    seq![
        tor_delta_spec(a.spec_position().x as int, fp.x as int, size),
        tor_delta_spec(a.spec_position().y as int, fp.y as int, size),
    ]
}

/// Exactly how one tick moves an agent perceiving the food at `fp`: the
/// network's first output turns the heading, the second accelerates
/// (clamped into the speed band), and the agent advances by its new speed
/// along its new heading, wrapping around the torus.
pub open spec fn pose_step(pre: Animal, post: Animal, fp: Point2, size: int) -> bool {
    let out = net_eval(pre.spec_network().layers@, sensed(pre, fp, size));
    let rot = (pre.spec_rotation() + out[0]) % (TAU_FX as int);
    let sp0 = sat(pre.spec_speed() + out[1]);
    let sp = if sp0 > SPEED_MAX as int {
        SPEED_MAX as int
    } else if sp0 < SPEED_MIN as int {
        SPEED_MIN as int
    } else {
        sp0
    };
    &&& post.spec_rotation() == rot
    &&& post.spec_speed() == sp
    &&& post.spec_position().x == wrap1(
        pre.spec_position().x + sat(tdiv(sp * cos_fx_spec(rot), SCALE as int)),
        size,
    )
    &&& post.spec_position().y == wrap1(
        pre.spec_position().y + sat(tdiv(sp * sin_fx_spec(rot), SCALE as int)),
        size,
    )
}

/// One tick steers each agent by the first nearest food item.
pub open spec fn animal_stepped(pre: Animal, post: Animal, foods: Seq<Food>, size: int) -> bool {
    forall|k: int|
        first_nearest(foods, pre.spec_position(), size, k) ==> pose_step(
            pre,
            post,
            foods[k].spec_position(),
            size,
        )
}

/// What one tick does: the configuration, the counts and every network
/// stay; each agent's pose moves exactly as its network steers it; each
/// agent's fitness grows by exactly the number of foods it is the first to
/// reach (within the capture radius, after moving), clamped to the
/// counter; and only caught food moves, to a fresh random spot.
pub open spec fn tick_rel(pre: Simulation, post: Simulation) -> bool {
    let pa = pre.spec_world().spec_animals();
    let na = post.spec_world().spec_animals();
    let pf = pre.spec_world().spec_foods();
    let nf = post.spec_world().spec_foods();
    let size = pre.spec_world().spec_config().world_size as int;
    &&& post.spec_world().spec_config() == pre.spec_world().spec_config()
    &&& na.len() == pa.len()
    &&& post.spec_world().spec_foods().len() == pre.spec_world().spec_foods().len()
    &&& forall|i: int|
        0 <= i < na.len() ==> (#[trigger] na[i]).spec_network() == pa[i].spec_network()
    &&& forall|i: int|
        0 <= i < na.len() ==> animal_stepped(pa[i], #[trigger] na[i], pf, size)
    &&& forall|i: int|
        0 <= i < na.len() ==> (#[trigger] na[i]).spec_fitness() as int == sat_u32(
            pa[i].spec_fitness() + caught_count(na, pf, size, i),
        )
    &&& forall|f: int|
        0 <= f < pf.len() ==> ((forall|j: int|
            0 <= j < na.len() ==> sq_to(
                (#[trigger] na[j]).spec_position(),
                pf[f].spec_position(),
                size,
            ) >= FOOD_RADIUS_SQ) ==> (#[trigger] nf[f]).spec_position() == pf[f].spec_position())
}

/// `pop` is the scored view of `animals`: one member per agent, carrying
/// the agent's flat genome and its earned fitness.
pub open spec fn scored_view(pop: Seq<ScoredIndividual>, animals: Seq<Animal>) -> bool {
    &&& pop.len() == animals.len()
    &&& forall|j: int|
        0 <= j < pop.len() ==> (#[trigger] pop[j]).spec_genes() == net_genes(
            animals[j].spec_network().layers@,
        )
    &&& forall|j: int|
        0 <= j < pop.len() ==> (#[trigger] pop[j]).spec_fitness() == animals[j].spec_fitness()
}

/// What a generation boundary guarantees: configuration and counts stay;
/// every respawned agent starts at zero fitness and carries a genome the
/// engine built from the closing scored population (selection, crossover,
/// mutation, under each strategy's contract); and the statistics report
/// the closing generation's fitness values in agent order.
pub open spec fn generation_rel(pre: Simulation, post: Simulation, stats: Statistics) -> bool {
    let pa = pre.spec_world().spec_animals();
    let na = post.spec_world().spec_animals();
    &&& post.spec_world().spec_config() == pre.spec_world().spec_config()
    &&& post.spec_engine() == pre.spec_engine()
    &&& na.len() == pa.len()
    &&& post.spec_world().spec_foods().len() == pre.spec_world().spec_foods().len()
    &&& forall|i: int| 0 <= i < na.len() ==> (#[trigger] na[i]).spec_fitness() == 0
    &&& forall|i: int| 0 <= i < na.len() ==> (#[trigger] na[i]).spec_speed() == SPEED_INITIAL
    &&& exists|pop: Seq<ScoredIndividual>|
        #[trigger] scored_view(pop, pa) && (forall|i: int|
            0 <= i < na.len() ==> pre.spec_engine().child_ens(
                pop,
                net_genes((#[trigger] na[i]).spec_network().layers@),
            ))
    &&& stats.population == pa.len()
    &&& stats.fitnesses@.len() == pa.len()
    &&& forall|i: int|
        0 <= i < pa.len() ==> stats.fitnesses@[i] == (#[trigger] pa[i]).spec_fitness()
}

impl Simulation {
    /// The world being advanced.
    pub closed spec fn spec_world(&self) -> World {
        self.world
    }

    /// The engine evolving it.
    pub closed spec fn spec_engine(&self) -> GeneticAlgorithm<
        RouletteWheelSelection,
        UniformCrossover,
        GaussianMutation,
    > {
        self.ga
    }

    /// Read access to the world.
    pub fn world(&self) -> (r: &World)
        ensures
            *r == self.spec_world(),
    {
        &self.world
    }

    /// A ready simulation for a configuration, with random first-generation
    /// agents; `InvalidConfiguration` exactly when the configuration is
    /// unusable.
    pub fn random(config: Config, rng: &mut SimRng) -> (r: Result<Simulation, SimError>)
        ensures
            r matches Ok(s) ==> {
                &&& config_valid(config)
                &&& sim_wf(s)
                &&& s.spec_world().spec_config() == config
                &&& s.spec_world().spec_animals().len() == config.n_animals
                &&& s.spec_world().spec_foods().len() == config.n_foods
                &&& forall|i: int|
                    0 <= i < s.spec_world().spec_animals().len() ==> (#[trigger] s.spec_world().spec_animals()[i]).spec_fitness() == 0
                &&& forall|i: int|
                    0 <= i < s.spec_world().spec_animals().len() ==> (#[trigger] s.spec_world().spec_animals()[i]).spec_speed() == SPEED_INITIAL
            },
            r matches Err(e) ==> e == SimError::InvalidConfiguration && !config_valid(config),
    {
        if !check_config(&config) {
            return Err(SimError::InvalidConfiguration);
        }
        let mutation = match GaussianMutation::new(config.mutation_chance, config.mutation_coeff) {
            Ok(m) => m,
            Err(_) => unreached(),
        };
        let ga = GeneticAlgorithm::new(RouletteWheelSelection {}, UniformCrossover, mutation);
        let world = match World::random(config, rng) {
            Ok(w) => w,
            Err(_) => unreached(),
        };
        Ok(Simulation { world, ga })
    }

    /// Advance the world one time step. Agent and food counts, every
    /// agent's network, and the configuration are unchanged; each agent
    /// moves exactly as its network steers it, earns one fitness point per
    /// food it is the first to reach, and only caught food is relocated
    /// (see [`tick_rel`]).
    pub fn tick(&mut self, rng: &mut SimRng)
        requires
            sim_wf(*old(self)),
        ensures
            sim_wf(*final(self)),
            tick_rel(*old(self), *final(self)),
    {
        let size = self.world.config.world_size;
        let n = self.world.animals.len();
        let mut i: usize = 0;
        while i < n
            invariant
                self.world.config == old(self).world.config,
                config_valid(self.world.config),
                size == self.world.config.world_size,
                self.world.foods@ == old(self).world.foods@,
                self.world.foods@.len() == self.world.config.n_foods,
                forall|j: int|
                    0 <= j < self.world.foods@.len() ==> food_wf(
                        #[trigger] self.world.foods@[j],
                        self.world.config,
                    ),
                n == self.world.animals@.len() == old(self).world.animals@.len(),
                i <= n,
                forall|j: int|
                    0 <= j < n ==> animal_wf(#[trigger] self.world.animals@[j], self.world.config),
                forall|j: int|
                    0 <= j < n ==> (#[trigger] self.world.animals@[j]).spec_network() == old(
                        self,
                    ).world.animals@[j].spec_network(),
                forall|j: int|
                    0 <= j < n ==> (#[trigger] self.world.animals@[j]).spec_fitness() == old(
                        self,
                    ).world.animals@[j].spec_fitness(),
                forall|j: int|
                    i <= j < n ==> #[trigger] self.world.animals@[j] == old(
                        self,
                    ).world.animals@[j],
                forall|j: int|
                    0 <= j < i ==> animal_stepped(
                        old(self).world.animals@[j],
                        #[trigger] self.world.animals@[j],
                        old(self).world.foods@,
                        size as int,
                    ),
            decreases n - i,
        {
            let a_pos = self.world.animals[i].position();
            let k = nearest_food(&self.world.foods, a_pos, size);
            let f_pos = self.world.foods[k].position();
            let dx = tor_delta(a_pos.x, f_pos.x, size);
            let dy = tor_delta(a_pos.y, f_pos.y, size);
            let inputs = vec![dx, dy];
            let ghost before = self.world.animals@;
            let mut a = self.world.animals.remove(i);
            let ghost pre_a = a;
            proof {
                let topo_ints = self.world.config.topology@.map_values(|w: usize| w as int);
                assert(net_topology(a.network) == topo_ints);
                assert(net_topology(a.network)[0] == crate::neural_network::in_width(a.network));
                assert(topo_ints[0] == self.world.config.topology@[0] as int);
                assert(topo_ints.last() == self.world.config.topology@.last() as int);
            }
            let out = match a.network.propagate(&inputs) {
                Ok(o) => o,
                Err(_) => unreached(),
            };
            a.rotation = wrap_angle(a.rotation, out[0]);
            let s1 = fx_sat_add(a.speed, out[1]);
            a.speed = if s1 > SPEED_MAX {
                SPEED_MAX
            } else if s1 < SPEED_MIN {
                SPEED_MIN
            } else {
                s1
            };
            let c = cos_fx(a.rotation);
            let s = sin_fx(a.rotation);
            let mx = fx_mul(a.speed, c);
            let my = fx_mul(a.speed, s);
            proof {
                lemma_fx_mul_abs(a.speed as int, c as int);
                lemma_fx_mul_abs(a.speed as int, s as int);
                assert(abs_int(mx as int) <= a.speed);
                assert(abs_int(my as int) <= a.speed);
            }
            a.position = Point2 {
                x: wrap_add(a.position.x, mx, size),
                y: wrap_add(a.position.y, my, size),
            };
            self.world.animals.insert(i, a);
            proof {
                assert(self.world.animals@ =~= before.update(i as int, a));
                let sz = size as int;
                let foods = old(self).world.foods@;
                assert(to_ints(inputs@) =~= sensed(pre_a, f_pos, sz));
                assert(to_ints(out@)[0] == out@[0] as int);
                assert(to_ints(out@)[1] == out@[1] as int);
                assert(pose_step(pre_a, a, f_pos, sz));
                assert forall|kk: int|
                    first_nearest(foods, pre_a.spec_position(), sz, kk) implies pose_step(
                    pre_a,
                    a,
                    foods[kk].spec_position(),
                    sz,
                ) by {
                    lemma_first_nearest_unique(foods, pre_a.spec_position(), sz, kk, k as int);
                }
                assert(animal_stepped(pre_a, a, foods, sz));
            }
            i = i + 1;
        }
        let ghost mid = self.world.animals@;
        let nf = self.world.foods.len();
        let mut f: usize = 0;
        while f < nf
            invariant
                self.world.config == old(self).world.config,
                config_valid(self.world.config),
                size == self.world.config.world_size,
                nf == self.world.foods@.len() == self.world.config.n_foods,
                nf == old(self).world.foods@.len(),
                forall|j: int|
                    0 <= j < self.world.foods@.len() ==> food_wf(
                        #[trigger] self.world.foods@[j],
                        self.world.config,
                    ),
                f <= nf,
                mid.len() == n == self.world.animals@.len(),
                forall|j: int|
                    0 <= j < n ==> animal_wf(#[trigger] self.world.animals@[j], self.world.config),
                forall|j: int|
                    0 <= j < n ==> (#[trigger] self.world.animals@[j]).spec_network()
                        == mid[j].spec_network(),
                forall|j: int|
                    0 <= j < n ==> (#[trigger] self.world.animals@[j]).spec_position()
                        == mid[j].spec_position(),
                forall|j: int|
                    0 <= j < n ==> (#[trigger] self.world.animals@[j]).spec_rotation()
                        == mid[j].spec_rotation(),
                forall|j: int|
                    0 <= j < n ==> (#[trigger] self.world.animals@[j]).spec_speed()
                        == mid[j].spec_speed(),
                forall|j: int|
                    0 <= j < n ==> animal_stepped(
                        old(self).world.animals@[j],
                        #[trigger] mid[j],
                        old(self).world.foods@,
                        size as int,
                    ),
                forall|j: int|
                    0 <= j < n ==> (#[trigger] self.world.animals@[j]).spec_network() == old(
                        self,
                    ).world.animals@[j].spec_network(),
                forall|j: int|
                    0 <= j < n ==> mid[j].spec_fitness() == old(
                        self,
                    ).world.animals@[j].spec_fitness(),
                forall|f2: int|
                    f <= f2 < nf ==> #[trigger] self.world.foods@[f2] == old(
                        self,
                    ).world.foods@[f2],
                forall|f2: int|
                    0 <= f2 < f ==> ((forall|j: int|
                        0 <= j < n ==> sq_to(
                            (#[trigger] mid[j]).spec_position(),
                            old(self).world.foods@[f2].spec_position(),
                            size as int,
                        ) >= FOOD_RADIUS_SQ) ==> (#[trigger] self.world.foods@[f2]).spec_position()
                        == old(self).world.foods@[f2].spec_position()),
                forall|j: int|
                    0 <= j < n ==> (#[trigger] self.world.animals@[j]).spec_fitness() as int
                        == sat_u32(
                        mid[j].spec_fitness() + caught_count(
                            mid,
                            old(self).world.foods@.take(f as int),
                            size as int,
                            j,
                        ),
                    ),
            decreases nf - f,
        {
            let ghost sz = size as int;
            let ghost pre_foods = old(self).world.foods@;
            proof {
                assert(pre_foods.take(f as int) =~= pre_foods.take(f + 1).drop_last());
                assert(pre_foods.take(f + 1).last() == pre_foods[f as int]);
            }
            let fp = self.world.foods[f].position();
            match catcher_index(&self.world.animals, fp, size) {
                Some(j) => {
                    let ghost cur = self.world.animals@;
                    proof {
                        lemma_first_catcher_same_positions(cur, mid, fp, sz, j as int);
                    }
                    let mut a = self.world.animals.remove(j);
                    a.fitness = if a.fitness < u32::MAX {
                        a.fitness + 1
                    } else {
                        a.fitness
                    };
                    self.world.animals.insert(j, a);
                    let newf = Food::random(rng, size);
                    self.world.foods.set(f, newf);
                    proof {
                        assert(self.world.animals@ =~= cur.update(j as int, a));
                        assert(first_catcher(mid, fp, sz, j as int));
                        assert forall|j2: int| 0 <= j2 < n implies (
                        #[trigger] self.world.animals@[j2]).spec_fitness() as int == sat_u32(
                            mid[j2].spec_fitness() + caught_count(
                                mid,
                                pre_foods.take(f + 1),
                                sz,
                                j2,
                            ),
                        ) by {
                            if j2 != j as int && first_catcher(mid, fp, sz, j2) {
                                lemma_first_catcher_unique(mid, fp, sz, j2, j as int);
                            }
                        }
                        assert(sq_to(mid[j as int].spec_position(), fp, sz) < FOOD_RADIUS_SQ);
                    }
                },
                None => {
                    proof {
                        assert forall|j2: int| 0 <= j2 < n implies sq_to(
                            (#[trigger] mid[j2]).spec_position(),
                            fp,
                            sz,
                        ) >= FOOD_RADIUS_SQ by {
                            assert(self.world.animals@[j2].spec_position()
                                == mid[j2].spec_position());
                        }
                        assert forall|j2: int| 0 <= j2 < n implies (
                        #[trigger] self.world.animals@[j2]).spec_fitness() as int == sat_u32(
                            mid[j2].spec_fitness() + caught_count(
                                mid,
                                pre_foods.take(f + 1),
                                sz,
                                j2,
                            ),
                        ) by {
                            assert(!first_catcher(mid, fp, sz, j2));
                        }
                    }
                },
            }
            f = f + 1;
        }
        proof {
            let sz = size as int;
            let foods0 = old(self).world.foods@;
            assert forall|j: int| 0 <= j < n implies animal_stepped(
                old(self).world.animals@[j],
                #[trigger] self.world.animals@[j],
                foods0,
                sz,
            ) by {
                assert forall|kk: int|
                    first_nearest(
                        foods0,
                        old(self).world.animals@[j].spec_position(),
                        sz,
                        kk,
                    ) implies pose_step(
                    old(self).world.animals@[j],
                    self.world.animals@[j],
                    foods0[kk].spec_position(),
                    sz,
                ) by {
                    assert(pose_step(
                        old(self).world.animals@[j],
                        mid[j],
                        foods0[kk].spec_position(),
                        sz,
                    ));
                }
            }
            assert(foods0.take(nf as int) =~= foods0);
            assert forall|i2: int| 0 <= i2 < n implies (
            #[trigger] self.world.animals@[i2]).spec_fitness() as int == sat_u32(
                old(self).world.animals@[i2].spec_fitness() + caught_count(
                    self.world.animals@,
                    foods0,
                    sz,
                    i2,
                ),
            ) by {
                lemma_caught_count_same_positions(mid, self.world.animals@, foods0, sz, i2);
            }
            assert forall|f2: int| 0 <= f2 < nf implies ((forall|j: int|
                0 <= j < n ==> sq_to(
                    (#[trigger] self.world.animals@[j]).spec_position(),
                    foods0[f2].spec_position(),
                    sz,
                ) >= FOOD_RADIUS_SQ) ==> (#[trigger] self.world.foods@[f2]).spec_position()
                == foods0[f2].spec_position()) by {
                if (forall|j: int|
                    0 <= j < n ==> sq_to(
                        (#[trigger] self.world.animals@[j]).spec_position(),
                        foods0[f2].spec_position(),
                        sz,
                    ) >= FOOD_RADIUS_SQ) {
                    assert forall|j: int| 0 <= j < n implies sq_to(
                        (#[trigger] mid[j]).spec_position(),
                        foods0[f2].spec_position(),
                        sz,
                    ) >= FOOD_RADIUS_SQ by {
                        assert(self.world.animals@[j].spec_position() == mid[j].spec_position());
                    }
                }
            }
        }
    }

    /// One generation boundary: score every agent, evolve the genomes
    /// through the engine, and respawn as many fresh agents carrying the
    /// children, with zeroed fitness, plus fresh random food. Returns the
    /// closing generation's fitness values, in agent order.
    pub fn step_generation(&mut self, rng: &mut SimRng) -> (stats: Statistics)
        requires
            sim_wf(*old(self)),
        ensures
            sim_wf(*final(self)),
            generation_rel(*old(self), *final(self), stats),
    {
        let n = self.world.animals.len();
        let ghost glen = genome_len(self.world.config.topology@);
        let mut scored: Vec<ScoredIndividual> = Vec::new();
        let mut fitnesses: Vec<u32> = Vec::new();
        let mut i: usize = 0;
        while i < n
            invariant
                sim_wf(*self),
                self.world == old(self).world,
                self.ga == old(self).ga,
                n == self.world.animals@.len(),
                glen == genome_len(self.world.config.topology@),
                i == scored@.len() == fitnesses@.len() <= n,
                forall|j: int|
                    0 <= j < i ==> (#[trigger] scored@[j].spec_genes()).len() == glen,
                forall|j: int|
                    0 <= j < i ==> (#[trigger] scored@[j]).spec_genes() == net_genes(
                        self.world.animals@[j].spec_network().layers@,
                    ),
                forall|j: int|
                    0 <= j < i ==> (#[trigger] scored@[j]).spec_fitness()
                        == self.world.animals@[j].spec_fitness(),
                forall|j: int|
                    0 <= j < i ==> fitnesses@[j] == (
                    #[trigger] self.world.animals@[j]).spec_fitness(),
            decreases n - i,
        {
            let fit = self.world.animals[i].fitness();
            let ch = self.world.animals[i].chromosome();
            proof {
                lemma_net_genes_len(
                    self.world.animals@[i as int].spec_network(),
                    self.world.config.topology@,
                );
            }
            scored.push(ScoredIndividual::new(ch, fit));
            fitnesses.push(fit);
            i = i + 1;
        }
        let children = self.ga.evolve(rng, &scored);
        let mut new_animals: Vec<Animal> = Vec::new();
        let mut k: usize = 0;
        while k < n
            invariant
                sim_wf(*self),
                self.world == old(self).world,
                self.ga == old(self).ga,
                n == self.world.animals@.len(),
                glen == genome_len(self.world.config.topology@),
                scored@.len() == n,
                forall|j: int|
                    0 <= j < n ==> (#[trigger] scored@[j].spec_genes()).len() == glen,
                children@.len() == n,
                forall|j: int|
                    0 <= j < n ==> (#[trigger] children@[j].spec_genes()).len() == glen,
                k == new_animals@.len() <= n,
                forall|j: int|
                    0 <= j < k ==> animal_wf(#[trigger] new_animals@[j], self.world.config),
                forall|j: int| 0 <= j < k ==> (#[trigger] new_animals@[j]).spec_fitness() == 0,
                forall|j: int|
                    0 <= j < k ==> (#[trigger] new_animals@[j]).spec_speed() == SPEED_INITIAL,
                forall|j: int|
                    0 <= j < k ==> net_genes((#[trigger] new_animals@[j]).spec_network().layers@)
                        == children@[j].spec_genes(),
            decreases n - k,
        {
            let net = match Network::from_weights(
                &self.world.config.topology,
                children[k].chromosome(),
            ) {
                Ok(net) => net,
                Err(_) => unreached(),
            };
            new_animals.push(Animal::spawn(rng, &self.world.config, net));
            k = k + 1;
        }
        let mut new_foods: Vec<Food> = Vec::new();
        let nf = self.world.foods.len();
        let mut m: usize = 0;
        while m < nf
            invariant
                sim_wf(*self),
                self.world == old(self).world,
                self.ga == old(self).ga,
                nf == self.world.foods@.len(),
                m == new_foods@.len() <= nf,
                forall|j: int|
                    0 <= j < m ==> food_wf(#[trigger] new_foods@[j], self.world.config),
            decreases nf - m,
        {
            new_foods.push(Food::random(rng, self.world.config.world_size));
            m = m + 1;
        }
        self.world.animals = new_animals;
        self.world.foods = new_foods;
        proof {
            let pa = old(self).spec_world().spec_animals();
            let na = self.world.animals@;
            assert(scored_view(scored@, pa));
            assert forall|i2: int| 0 <= i2 < na.len() implies old(self).spec_engine().child_ens(
                scored@,
                net_genes((#[trigger] na[i2]).spec_network().layers@),
            ) by {
                assert(net_genes(na[i2].spec_network().layers@) == children@[i2].spec_genes());
            }
        }
        Statistics { population: n, fitnesses }
    }
}

} // verus!
