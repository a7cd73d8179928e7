//! Weighted random draws of bytes, by the frequency profile of a target.

use crate::frequency::{count_of, sum_of, FrequencyModel};
use rand::distributions::{Distribution, WeightedError, WeightedIndex};
use rand::rngs::StdRng;
use rand::SeedableRng;
use vstd::prelude::*;

verus! {

#[verifier::external_type_specification]
#[verifier::external_body]
pub struct ExStdRng(StdRng);

/// A weighted index over `usize` weights, held opaquely: Verus refuses the
/// declaration of the generic outside type because of its trait bounds.
#[verifier::external_body]
pub struct ByteDistribution {
    inner: WeightedIndex<usize>,
}

#[verifier::external_type_specification]
#[verifier::external_body]
pub struct ExWeightedError(WeightedError);

/// The number of weights that a weighted index was built from.
pub uninterp spec fn index_count(d: ByteDistribution) -> nat;

/// Relies on `rand::SeedableRng::seed_from_u64` for `StdRng`: a generator
/// whose output depends on the seed.
#[verifier::external_body]
fn seeded_rng(seed: u64) -> (r: StdRng) {
    StdRng::seed_from_u64(seed)
}

/// Relies on `rand::distributions::WeightedIndex::new`: it fails on an empty
/// list and on weights that add up to zero (`usize` weights are never
/// negative); it adds the weights up in `usize`.
#[verifier::external_body]
fn weighted_index(weights: &Vec<usize>) -> (r: Result<ByteDistribution, WeightedError>)
    requires
        sum_of(weights@) <= usize::MAX,
    ensures
        r.is_ok() <==> (weights@.len() > 0 && sum_of(weights@) > 0),
        r matches Ok(d) ==> index_count(d) == weights@.len(),
{
    WeightedIndex::new(weights).map(|inner| ByteDistribution { inner })
}

/// Relies on `Distribution::sample` of `WeightedIndex`: an index into the
/// weights it was built from.
#[verifier::external_body]
fn draw_index(d: &ByteDistribution, rng: &mut StdRng) -> (r: usize)
    ensures
        r < index_count(*d),
{
    d.inner.sample(rng)
}

/// Why a search cannot be set up.
#[derive(Debug, Clone, Copy, PartialEq, Eq, Structural)]
pub enum SearchError {
    /// The target is empty, so there is no distribution to draw from.
    ConfigurationError,
}

/// Draws bytes at random, each byte with probability proportional to its
/// count in the target, from a generator seeded once.
pub struct WeightedSampler {
    symbols: Vec<u8>,
    dist: ByteDistribution,
    rng: StdRng,
    seed: u64,
    source: Ghost<Seq<u8>>,
}

impl WeightedSampler {
    /// The bytes that can be drawn.
    pub closed spec fn symbols_view(&self) -> Seq<u8> {
        self.symbols@
    }

    /// The target whose profile is drawn from.
    pub closed spec fn source(&self) -> Seq<u8> {
        self.source@
    }

    /// The seed the generator was made with.
    pub closed spec fn seed_view(&self) -> u64 {
        self.seed
    }

    /// Each index the distribution draws names a byte of the target.
    pub closed spec fn wf(&self) -> bool {
        &&& index_count(self.dist) == self.symbols@.len()
        &&& self.symbols@.len() > 0
        &&& forall|i: int| 0 <= i < self.symbols@.len() ==> #[trigger] count_of(self.source@, self.symbols@[i]) > 0
    }

    /// A sampler over the profile `model`, seeded with `seed`; it fails
    /// exactly when the model's target is empty.
    pub fn new(model: &FrequencyModel, seed: u64) -> (r: Result<WeightedSampler, SearchError>)
        requires
            model.wf(),
        ensures
            r is Err <==> model.source().len() == 0,
            r matches Err(e) ==> e == SearchError::ConfigurationError,
            r matches Ok(s) ==> {
                &&& s.wf()
                &&& s.source() == model.source()
                &&& s.symbols_view() == model.symbols_view()
                &&& s.seed_view() == seed
            },
    {
        proof {
            if model.source().len() > 0 {
                crate::frequency::lemma_count_positive(model.source(), 0);
                let b = model.source()[0];
                assert(model.symbols_view().contains(b));
            }
        }
        match weighted_index(model.weights()) {
            Err(_) => Err(SearchError::ConfigurationError),
            Ok(dist) => {
                let symbols = model.symbols().clone();
                assert(symbols@ =~= model.symbols_view());
                let rng = seeded_rng(seed);
                Ok(WeightedSampler { symbols, dist, rng, seed, source: Ghost(model.source()) })
            },
        }
    }

    /// Advances the generator and returns one byte that occurs in the target.
    pub fn next_byte(&mut self) -> (r: u8)
        requires
            old(self).wf(),
        ensures
            final(self).wf(),
            final(self).source() == old(self).source(),
            final(self).symbols_view() == old(self).symbols_view(),
            final(self).seed_view() == old(self).seed_view(),
            final(self).symbols_view().contains(r),
            count_of(final(self).source(), r) > 0,
    {
        let i = draw_index(&self.dist, &mut self.rng);
        self.symbols[i]
    }

    /// The seed the generator was made with.
    pub fn seed(&self) -> (r: u64)
        ensures
            r == self.seed_view(),
    {
        self.seed
    }
}

} // verus!
