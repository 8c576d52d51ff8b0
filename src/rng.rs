use rand::Rng;
use rand::SeedableRng;
use vstd::prelude::*;

verus! {

/// The generator every replicate draws from; it is seeded from a single `u64`.
#[verifier::external_type_specification]
#[verifier::external_body]
pub struct ExStdRng(rand::rngs::StdRng);

/// Relies on `rand_core::SeedableRng::seed_from_u64`: a generator whose stream is
/// fixed by the seed.
#[verifier::external_body]
pub(crate) fn seeded(seed: u64) -> (r: rand::rngs::StdRng) {
    rand::rngs::StdRng::seed_from_u64(seed)
}

/// Relies on `rand_distr::Uniform::new(low, high)` sampled through
/// `rand::Rng::sample`: a value in the half-open range. `Uniform::new` panics
/// when `low >= high`, which `requires` leaves out.
#[verifier::external_body]
pub(crate) fn uniform_usize(rng: &mut rand::rngs::StdRng, low: usize, high: usize) -> (r: usize)
    requires
        low < high,
    ensures
        low <= r < high,
{
    rng.sample(rand_distr::Uniform::new(low, high))
}

/// Relies on `rand_distr::Uniform::new(low, high)` over `u64` sampled through
/// `rand::Rng::sample`: a value in the half-open range. `Uniform::new` panics
/// when `low >= high`, which `requires` leaves out.
#[verifier::external_body]
pub(crate) fn uniform_u64(rng: &mut rand::rngs::StdRng, low: u64, high: u64) -> (r: u64)
    requires
        low < high,
    ensures
        low <= r < high,
{
    rng.sample(rand_distr::Uniform::new(low, high))
}

/// Relies on `rand::Rng::gen` for `bool`: a fair coin.
#[verifier::external_body]
pub(crate) fn fair_coin(rng: &mut rand::rngs::StdRng) -> (r: bool) {
    rng.gen::<bool>()
}

/// Relies on `rand::Rng::gen_ratio`: `true` with probability
/// `numerator / denominator`. Through `Bernoulli::from_ratio` it never succeeds
/// with a numerator of zero and always succeeds when the two are equal; it
/// panics when the denominator is zero or below the numerator.
#[verifier::external_body]
pub(crate) fn bernoulli_ratio(rng: &mut rand::rngs::StdRng, numerator: u32, denominator: u32) -> (r: bool)
    requires
        0 < denominator,
        numerator <= denominator,
    ensures
        numerator == 0 ==> !r,
        numerator == denominator ==> r,
{
    rng.gen_ratio(numerator, denominator)
}

} // verus!
