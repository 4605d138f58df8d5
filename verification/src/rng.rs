use vstd::prelude::*;

verus! {

/// Relies on rand's `Rng::gen_range` over `min..max` on the thread-local
/// generator: it returns a value of the half-open range, and panics only on
/// an empty range, which the precondition excludes.
#[verifier::external_body]
pub(crate) fn sample_latency(min: u64, max: u64) -> (r: u64)
    requires
        min < max,
    ensures
        min <= r < max,
{
    rand::Rng::gen_range(&mut rand::thread_rng(), min..max)
}

/// Relies on rand's `RngCore::next_u32` on the thread-local generator;
/// nothing is promised of the value.
#[verifier::external_body]
pub(crate) fn random_u32() -> u32 {
    rand::RngCore::next_u32(&mut rand::thread_rng())
}

} // verus!
