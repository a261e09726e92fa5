//! The random source of a run and the draws the operators take from it.
use rand::Rng;
use vstd::prelude::*;

verus! {

/// The thread-local generator of `rand`; Verus sees nothing inside it.
#[verifier::external_type_specification]
#[verifier::external_body]
pub struct ExThreadRng(rand::rngs::ThreadRng);

/// Relies on `rand::Rng::gen_range` on a half-open range: a value in `[lo, hi)`.
/// It panics on an empty range, which the precondition rules out.
#[verifier::external_body]
pub(crate) fn random_in(rng: &mut rand::rngs::ThreadRng, lo: usize, hi: usize) -> (r: usize)
    requires
        lo < hi,
    ensures
        lo <= r < hi,
{
    rng.gen_range(lo..hi)
}

/// Relies on `rand::Rng::gen::<bool>`: a fair coin; nothing is promised of the value.
#[verifier::external_body]
pub(crate) fn random_bool(rng: &mut rand::rngs::ThreadRng) -> (r: bool) {
    rng.gen::<bool>()
}

} // verus!
