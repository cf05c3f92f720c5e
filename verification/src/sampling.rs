use rand::distributions::Distribution;
use rand::SeedableRng;
use vstd::prelude::*;

verus! {

#[verifier::external_type_specification]
#[verifier::external_body]
pub struct ExBernoulli(rand::distributions::Bernoulli);

#[verifier::external_type_specification]
#[verifier::external_body]
pub struct ExBernoulliError(rand::distributions::BernoulliError);

#[verifier::external_type_specification]
#[verifier::external_body]
pub struct ExXoshiro256StarStar(rand_xoshiro::Xoshiro256StarStar);

/// The generator that a seed gives.
pub uninterp spec fn seeded_from(seed: u64) -> rand_xoshiro::Xoshiro256StarStar;

/// What one trial gives when it draws from `generator`: its outcome, and the
/// generator as the trial leaves it.
pub uninterp spec fn drawn(
    trial: rand::distributions::Bernoulli,
    generator: rand_xoshiro::Xoshiro256StarStar,
) -> (bool, rand_xoshiro::Xoshiro256StarStar);

/// The generator after `trials` trials in a row have drawn from it.
pub open spec fn generator_after(
    trial: rand::distributions::Bernoulli,
    generator: rand_xoshiro::Xoshiro256StarStar,
    trials: nat,
) -> rand_xoshiro::Xoshiro256StarStar
    decreases trials,
{
    if trials == 0 {
        generator
    } else {
        drawn(trial, generator_after(trial, generator, (trials - 1) as nat)).1
    }
}

/// The outcomes of `count` trials in a row, the first drawing from
/// `generator` and each later one from what the trial before it left.
pub open spec fn outcomes(
    trial: rand::distributions::Bernoulli,
    generator: rand_xoshiro::Xoshiro256StarStar,
    count: nat,
) -> Seq<bool> {
    Seq::new(count, |i: int| drawn(trial, generator_after(trial, generator, i as nat)).0)
}

/// Makes the generator that `SeedableRng::seed_from_u64` of
/// `rand_xoshiro::Xoshiro256StarStar` computes from `seed`. The state is
/// computed from the seed and nothing else, so one seed always gives one
/// generator. Nothing more is claimed of it.
#[verifier::external_body]
pub(crate) fn seeded(seed: u64) -> (generator: rand_xoshiro::Xoshiro256StarStar)
    ensures
        generator == seeded_from(seed),
{
    rand_xoshiro::Xoshiro256StarStar::seed_from_u64(seed)
}

/// Runs one trial: `Distribution::sample` of `rand::distributions::Bernoulli`
/// with `generator` as the source of randomness. The outcome, and the
/// generator as the trial leaves it, are computed from the trial and the
/// generator and nothing else. Nothing more is claimed of either.
#[verifier::external_body]
pub(crate) fn sample(
    trial: &rand::distributions::Bernoulli,
    generator: &mut rand_xoshiro::Xoshiro256StarStar,
) -> (success: bool)
    ensures
        success == drawn(*trial, *old(generator)).0,
        *final(generator) == drawn(*trial, *old(generator)).1,
{
    trial.sample(generator)
}

} // verus!
