use vstd::prelude::*;
use rand::Rng;
use rand::RngCore;
use rand::SeedableRng;

verus! {

#[verifier::external_type_specification]
#[verifier::external_body]
pub struct ExXoshiro(rand_xoshiro::Xoshiro256PlusPlus);

/// A deterministic random-number source: a Xoshiro generator seeded once
/// and stepped by the draws made from it.
///
/// Nothing is promised about the drawn values beyond their ranges: to the
/// verified code every draw is an arbitrary value in range, and everything
/// proved holds for every such value.
pub struct RngSource {
    inner: rand_xoshiro::Xoshiro256PlusPlus,
}

impl RngSource {
    /// Relies on rand's `SeedableRng::seed_from_u64`: builds the generator
    /// deterministically from the seed.
    #[verifier::external_body]
    pub fn from_seed(seed: u64) -> (r: RngSource) {
        RngSource { inner: rand_xoshiro::Xoshiro256PlusPlus::seed_from_u64(seed) }
    }

    /// Relies on rand's `SeedableRng::from_rng`: derives a child generator
    /// from this one, stepping it.  Filling a seed from a Xoshiro source
    /// cannot fail, so the unwrap never panics.
    #[verifier::external_body]
    pub fn fork(&mut self) -> (r: RngSource) {
        RngSource {
            inner: rand_xoshiro::Xoshiro256PlusPlus::from_rng(&mut self.inner).unwrap(),
        }
    }

    /// Relies on rand's `RngCore::next_u32`.
    #[verifier::external_body]
    pub fn next_u32(&mut self) -> (r: u32) {
        self.inner.next_u32()
    }

    /// Relies on rand's `Rng::gen_range` over a half-open range, which
    /// returns a value of the range and panics only on an empty one,
    /// excluded here.
    #[verifier::external_body]
    pub fn range_u32(&mut self, lo: u32, hi: u32) -> (r: u32)
        requires
            lo < hi,
        ensures
            lo <= r < hi,
    {
        self.inner.gen_range(lo..hi)
    }
}

} // verus!
