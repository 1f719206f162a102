//! The single source of randomness.
//!
//! One seeded ChaCha8 generator is threaded explicitly through every
//! operation that draws randomness, so a whole run is reproducible from its
//! seed. Verified code reaches the generator only through the small trusted
//! wrappers below; nothing is assumed of a drawn value beyond its range.

use vstd::prelude::*;
use rand::distributions::Distribution;
use rand::Rng;
use rand::SeedableRng;

verus! {

#[verifier::external_type_specification]
#[verifier::external_body]
pub struct ExChaCha8Rng(rand_chacha::ChaCha8Rng);

/// A weighted discrete distribution over indices, held opaquely.
///
/// Verus refuses to declare `rand::distributions::WeightedIndex` itself
/// (its generic bound is an outside trait), so the value sits in a hidden
/// field and is spoken of only through [`weights_of`].
#[verifier::external_body]
pub struct WeightedDist {
    inner: rand::distributions::WeightedIndex<u64>,
}

/// A deterministic pseudo-random generator, owned by exactly one caller and
/// passed explicitly wherever randomness is drawn.
pub struct SimRng {
    inner: rand_chacha::ChaCha8Rng,
}

impl SimRng {
    /// Relies on `rand_core::SeedableRng::seed_from_u64`: builds the one
    /// generator a run threads through every random draw. Nothing is claimed
    /// of the stream; equal seeds give equal streams, which the determinism
    /// tests exercise.
    #[verifier::external_body]
    pub fn from_seed(seed: u64) -> (r: SimRng) {
        SimRng { inner: rand_chacha::ChaCha8Rng::seed_from_u64(seed) }
    }
}

/// Relies on `rand::Rng::gen_range`, which returns a value of the half-open
/// range and panics only when the range is empty.
#[verifier::external_body]
pub(crate) fn gen_range_i64(rng: &mut SimRng, lo: i64, hi: i64) -> (r: i64)
    requires
        lo < hi,
    ensures
        lo <= r < hi,
{
    rng.inner.gen_range(lo..hi)
}

/// Relies on `rand::Rng::gen_range`, which returns a value of the half-open
/// range and panics only when the range is empty.
#[verifier::external_body]
pub(crate) fn gen_index(rng: &mut SimRng, n: usize) -> (r: usize)
    requires
        n > 0,
    ensures
        r < n,
{
    rng.inner.gen_range(0..n)
}

/// Relies on `rand::Rng::gen` with the `Standard` distribution on `bool`:
/// a fair coin. Nothing is claimed of the outcome.
#[verifier::external_body]
pub(crate) fn coin(rng: &mut SimRng) -> (r: bool) {
    rng.inner.gen::<bool>()
}

/// The weights a [`WeightedDist`] was built over, in the order given.
pub uninterp spec fn weights_of(d: WeightedDist) -> Seq<u64>;

/// Sum of a weight sequence.
pub open spec fn sum64(s: Seq<u64>) -> int
    decreases s.len(),
{
    if s.len() == 0 {
        0
    } else {
        sum64(s.drop_last()) + s.last()
    }
}

/// A sum of weights that are each at most `w` is at most `len * w`.
pub proof fn lemma_sum64_bound(s: Seq<u64>, w: u64)
    requires
        forall|i: int| 0 <= i < s.len() ==> s[i] <= w,
    ensures
        0 <= sum64(s) <= s.len() * w,
    decreases s.len(),
{
    if s.len() == 0 {
    } else {
        lemma_sum64_bound(s.drop_last(), w);
        assert(s.drop_last().len() * w + w == s.len() * w) by (nonlinear_arith)
            requires
                s.drop_last().len() + 1 == s.len(),
        ;
    }
}

/// Relies on `rand::distributions::WeightedIndex::new`, which fails exactly
/// when the weights are empty or all zero (an unsigned weight is never
/// invalid), and sums the weights while building (hence the bound on their
/// total).
#[verifier::external_body]
pub(crate) fn new_weighted_index(weights: &Vec<u64>) -> (r: Option<WeightedDist>)
    requires
        sum64(weights@) <= u64::MAX,
    ensures
        r.is_some() <==> (weights@.len() > 0 && sum64(weights@) > 0),
        r matches Some(d) ==> weights_of(d) == weights@,
{
    match rand::distributions::WeightedIndex::new(weights.iter()) {
        Ok(d) => Some(WeightedDist { inner: d }),
        Err(_) => None,
    }
}

/// Relies on `rand::distributions::WeightedIndex`'s `Distribution::sample`:
/// it draws a point below the weights' total and picks the index owning
/// that point, so the chosen index is in range and its weight is positive,
/// whichever point was drawn.
#[verifier::external_body]
pub(crate) fn sample_weighted(rng: &mut SimRng, dist: &WeightedDist) -> (i: usize)
    ensures
        i < weights_of(*dist).len(),
        weights_of(*dist)[i as int] > 0,
{
    dist.inner.sample(&mut rng.inner)
}

} // verus!
