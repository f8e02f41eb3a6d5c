use vstd::prelude::*;

verus! {

/// The standard seedable generator of the `rand` crate, used so that a
/// control problem instance replays the same initial state on every
/// evaluation. Opaque to verification; every draw made through it is
/// specified only by its range.
#[verifier::external_type_specification]
#[verifier::external_body]
pub struct ExStdRng(rand::rngs::StdRng);

/// Relies on rand::SeedableRng::seed_from_u64: builds the deterministic
/// generator for a seed. Nothing is assumed about the stream it produces.
#[verifier::external_body]
pub(crate) fn seeded_rng(seed: u64) -> rand::rngs::StdRng {
    <rand::rngs::StdRng as rand::SeedableRng>::seed_from_u64(seed)
}

/// Relies on rand::Rng::gen_range on a seeded generator: returns a value
/// inside the given inclusive range (the range is non-empty, so the call
/// cannot panic).
#[verifier::external_body]
pub(crate) fn seeded_between(rng: &mut rand::rngs::StdRng, lo: i64, hi: i64) -> (r: i64)
    requires
        lo <= hi,
    ensures
        lo <= r <= hi,
{
    rand::Rng::gen_range(rng, lo..=hi)
}

/// Relies on rand::Rng::gen_range on the thread generator: a uniform index
/// below `n` (the range is non-empty, so the call cannot panic).
#[verifier::external_body]
pub(crate) fn rand_index(n: usize) -> (r: usize)
    requires
        n >= 1,
    ensures
        r < n,
{
    rand::Rng::gen_range(&mut rand::thread_rng(), 0..n)
}

/// Relies on rand::Rng::gen_range on the thread generator: a uniform value
/// inside the given inclusive range (non-empty, so the call cannot panic).
#[verifier::external_body]
pub(crate) fn rand_between(lo: i64, hi: i64) -> (r: i64)
    requires
        lo <= hi,
    ensures
        lo <= r <= hi,
{
    rand::Rng::gen_range(&mut rand::thread_rng(), lo..=hi)
}

/// Relies on rand::Rng::gen_ratio: true with probability
/// `numerator/denominator`. Nothing is assumed about the outcome; the
/// bounds only keep the call from panicking.
#[verifier::external_body]
pub(crate) fn rand_chance(numerator: u32, denominator: u32) -> (r: bool)
    requires
        denominator >= 1,
        numerator <= denominator,
{
    rand::Rng::gen_ratio(&mut rand::thread_rng(), numerator, denominator)
}

} // verus!
